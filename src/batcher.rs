use vstd::prelude::*;
use crate::action::{Action, ActionView, views};
use crate::batch::{
    batch_size, encode_batch, encode_tx, encode_txs, lemma_encode_batch_len, lemma_encode_txs_len,
    lemma_txs_size_bounds_len,
    push_bytes, push_u64_le, sha256, sha256_of, txs_size,
};

verus! {

/// The three actions that seal `batch`, in this order: persist it under its digest,
/// send it to the other authorities, announce the digest to consensus.
pub open spec fn is_seal(acts: Seq<ActionView>, batch: Seq<u8>) -> bool {
    acts.len() == 3 && match (acts[0], acts[1], acts[2]) {
        (
            ActionView::Store { digest, batch: stored },
            ActionView::BroadcastBatch { batch: sent },
            ActionView::AnnounceDigest { digest: announced },
        ) => digest@ == sha256_of(batch) && stored == batch && sent == batch && announced == digest,
        _ => false,
    }
}

/// Every batch that the actions store or send fits in `max` bytes.
pub open spec fn within_size(acts: Seq<ActionView>, max: nat) -> bool {
    forall|i: int| 0 <= i < acts.len() ==> match #[trigger] acts[i] {
        ActionView::Store { batch, .. } => batch.len() <= max,
        ActionView::BroadcastBatch { batch } => batch.len() <= max,
        _ => true,
    }
}

pub proof fn lemma_txs_size_push(txs: Seq<Seq<u8>>, tx: Seq<u8>)
    ensures
        txs_size(txs.push(tx)) == txs_size(txs) + 8 + tx.len(),
        encode_txs(txs.push(tx)) == encode_txs(txs) + encode_tx(tx),
{
    assert(txs.push(tx).drop_last() =~= txs);
}

/// Forms batches out of client transactions.
pub struct Core {
    max_payload_size: usize,
    min_block_delay: u64,
    /// The buffered transactions, serialized one after the other.
    encoded: Vec<u8>,
    count: usize,
    /// Time (ms) at which the first buffered transaction came in.
    started: u64,
    txs: Ghost<Seq<Seq<u8>>>,
}

impl Core {
    /// The transactions of the batch being formed, in order of submission.
    pub closed spec fn buffer(&self) -> Seq<Seq<u8>> {
        self.txs@
    }

    /// Largest serialized size of a batch, in bytes.
    pub closed spec fn max_size(&self) -> nat {
        self.max_payload_size as nat
    }

    /// Longest time (ms) a transaction waits in the buffer.
    pub closed spec fn delay(&self) -> u64 {
        self.min_block_delay
    }

    /// Time (ms) at which the first buffered transaction came in.
    pub closed spec fn started(&self) -> u64 {
        self.started
    }

    pub closed spec fn wf(&self) -> bool {
        &&& self.encoded@ == encode_txs(self.txs@)
        &&& self.count == self.txs@.len()
        &&& self.txs@.len() > 0 ==> batch_size(self.txs@) <= self.max_payload_size
    }

    /// Whether a timer firing at `now` seals the buffer.
    pub open spec fn timer_due(&self, now: u64) -> bool {
        self.buffer().len() > 0 && now >= self.started() + self.delay()
    }

    pub fn new(max_payload_size: usize, min_block_delay: u64) -> (r: Self)
        ensures
            r.wf(),
            r.buffer() == Seq::<Seq<u8>>::empty(),
            r.max_size() == max_payload_size,
            r.delay() == min_block_delay,
    {
        Core {
            max_payload_size,
            min_block_delay,
            encoded: Vec::new(),
            count: 0,
            started: 0,
            txs: Ghost(Seq::empty()),
        }
    }

    /// Largest serialized size of a batch, in bytes.
    pub fn max_payload_size(&self) -> (r: usize)
        ensures
            r == self.max_size(),
    {
        self.max_payload_size
    }

    /// Number of buffered transactions.
    pub fn buffered_count(&self) -> (r: usize)
        requires
            self.wf(),
        ensures
            r == self.buffer().len(),
    {
        self.count
    }

    /// Seals the buffer into a batch: persist, broadcast, announce. The buffer is empty after.
    pub fn seal(&mut self) -> (r: Vec<Action>)
        requires
            old(self).wf(),
            old(self).buffer().len() > 0,
        ensures
            final(self).wf(),
            final(self).buffer() == Seq::<Seq<u8>>::empty(),
            final(self).max_size() == old(self).max_size(),
            final(self).delay() == old(self).delay(),
            is_seal(views(r@), encode_batch(old(self).buffer())),
            batch_size(old(self).buffer()) <= old(self).max_size(),
            within_size(views(r@), old(self).max_size()),
    {
        let ghost txs = self.txs@;
        let mut batch: Vec<u8> = Vec::new();
        push_u64_le(&mut batch, self.count as u64);
        push_bytes(&mut batch, &self.encoded);
        assert(batch@ =~= encode_batch(txs));
        proof {
            lemma_encode_batch_len(txs);
        }
        let digest = sha256(&batch);
        let copy = batch.clone();
        assert(copy@ =~= batch@);
        self.encoded = Vec::new();
        self.count = 0;
        self.txs = Ghost(Seq::empty());
        let r = vec![
            Action::Store { digest, batch: copy },
            Action::BroadcastBatch { batch },
            Action::AnnounceDigest { digest },
        ];
        assert(views(r@) =~= seq![r@[0]@, r@[1]@, r@[2]@]);
        r
    }

    /// Adds `tx` to the batch being formed. Where the batch would then exceed the size
    /// limit, the buffer is sealed first and `tx` starts the next one. A transaction that
    /// cannot fit in any batch is dropped.
    pub fn submit_transaction(&mut self, tx: Vec<u8>, now: u64) -> (r: Vec<Action>)
        requires
            old(self).wf(),
        ensures
            final(self).wf(),
            final(self).max_size() == old(self).max_size(),
            final(self).delay() == old(self).delay(),
            within_size(views(r@), old(self).max_size()),
            if batch_size(seq![tx@]) > old(self).max_size() {
                &&& r@.len() == 0
                &&& final(self).buffer() == old(self).buffer()
                &&& final(self).started() == old(self).started()
            } else if old(self).buffer().len() > 0
                && batch_size(old(self).buffer().push(tx@)) > old(self).max_size() {
                &&& is_seal(views(r@), encode_batch(old(self).buffer()))
                &&& final(self).buffer() == seq![tx@]
                &&& final(self).started() == now
            } else {
                &&& r@.len() == 0
                &&& final(self).buffer() == old(self).buffer().push(tx@)
                &&& final(self).started() == if old(self).buffer().len() == 0 {
                    now
                } else {
                    old(self).started()
                }
            },
    {
        let ghost empty = Seq::<Seq<u8>>::empty();
        proof {
            lemma_txs_size_push(empty, tx@);
            lemma_txs_size_push(self.txs@, tx@);
            lemma_encode_txs_len(self.txs@);
            assert(empty.push(tx@) =~= seq![tx@]);
        }
        let max = self.max_payload_size;
        if max < 16 || tx.len() > max - 16 {
            let r: Vec<Action> = Vec::new();
            assert(views(r@) =~= Seq::<ActionView>::empty());
            return r;
        }
        let mut r: Vec<Action> = Vec::new();
        if self.count > 0 && self.encoded.len() > max - 16 - tx.len() {
            r = self.seal();
        }
        if self.count == 0 {
            self.started = now;
        }
        let ghost next = self.txs@.push(tx@);
        proof {
            lemma_txs_size_push(self.txs@, tx@);
            lemma_encode_txs_len(self.txs@);
            lemma_txs_size_bounds_len(self.txs@);
        }
        push_u64_le(&mut self.encoded, tx.len() as u64);
        push_bytes(&mut self.encoded, &tx);
        assert(self.encoded@ =~= encode_txs(next));
        self.count = self.count + 1;
        self.txs = Ghost(next);
        if r.len() == 0 {
            assert(views(r@) =~= Seq::<ActionView>::empty());
        }
        r
    }

    /// The batch timer fired at `now`: seal the buffer if it holds a transaction that has
    /// waited at least the minimum block delay.
    pub fn batch_timer_elapsed(&mut self, now: u64) -> (r: Vec<Action>)
        requires
            old(self).wf(),
        ensures
            final(self).wf(),
            final(self).max_size() == old(self).max_size(),
            final(self).delay() == old(self).delay(),
            within_size(views(r@), old(self).max_size()),
            if old(self).timer_due(now) {
                &&& is_seal(views(r@), encode_batch(old(self).buffer()))
                &&& final(self).buffer() == Seq::<Seq<u8>>::empty()
            } else {
                &&& r@.len() == 0
                &&& final(self).buffer() == old(self).buffer()
                &&& final(self).started() == old(self).started()
            },
    {
        if self.count > 0 && now >= self.started && now - self.started >= self.min_block_delay {
            self.seal()
        } else {
            let r: Vec<Action> = Vec::new();
            assert(views(r@) =~= Seq::<ActionView>::empty());
            r
        }
    }
}

} // verus!
