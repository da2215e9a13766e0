use vstd::prelude::*;

pub mod action;
pub mod batch;
pub mod batcher;
pub mod laws;
pub mod synchronizer;

use crate::action::{Action, ActionView, views};
use crate::batch::{Digest, sha256, sha256_of};
use crate::batcher::{Core, is_seal, within_size};
use crate::synchronizer::{
    Synchronizer, after_arrival, after_cleanup, after_request, after_timeout, is_pending, retry_due,
};

verus! {

/// No action sends a batch to another authority.
pub open spec fn forwards_nothing(acts: Seq<ActionView>) -> bool {
    forall|i: int| 0 <= i < acts.len() ==> !(#[trigger] acts[i] is BroadcastBatch) && !(acts[i] is SendBatch)
}

/// The mempool of one authority: it forms batches from client transactions, takes in
/// batches from peers and answers the lookups of consensus. Each event handler returns
/// the actions (store, send, reply) that its caller carries out, in order.
pub struct Mempool {
    pub core: Core,
    pub synchronizer: Synchronizer,
}

impl Mempool {
    pub open spec fn wf(&self) -> bool {
        self.core.wf() && self.synchronizer.wf()
    }

    /// A mempool with an empty buffer and nothing waited for.
    pub fn new(max_payload_size: usize, min_block_delay: u64, sync_retry_delay: u64) -> (r: Self)
        ensures
            r.wf(),
            r.core.buffer() == Seq::<Seq<u8>>::empty(),
            r.core.max_size() == max_payload_size,
            r.core.delay() == min_block_delay,
            r.synchronizer@.len() == 0,
            r.synchronizer.delay() == sync_retry_delay,
    {
        Mempool {
            core: Core::new(max_payload_size, min_block_delay),
            synchronizer: Synchronizer::new(sync_retry_delay),
        }
    }

    /// A client transaction came in at `now`.
    pub fn submit_transaction(&mut self, tx: Vec<u8>, now: u64) -> (r: Vec<Action>)
        requires
            old(self).wf(),
        ensures
            final(self).wf(),
            final(self).synchronizer == old(self).synchronizer,
            final(self).core.max_size() == old(self).core.max_size(),
            final(self).core.delay() == old(self).core.delay(),
            within_size(views(r@), old(self).core.max_size()),
            if crate::batch::batch_size(seq![tx@]) > old(self).core.max_size() {
                &&& r@.len() == 0
                &&& final(self).core.buffer() == old(self).core.buffer()
                &&& final(self).core.started() == old(self).core.started()
            } else if old(self).core.buffer().len() > 0
                && crate::batch::batch_size(old(self).core.buffer().push(tx@)) > old(self).core.max_size() {
                &&& is_seal(views(r@), crate::batch::encode_batch(old(self).core.buffer()))
                &&& final(self).core.buffer() == seq![tx@]
                &&& final(self).core.started() == now
            } else {
                &&& r@.len() == 0
                &&& final(self).core.buffer() == old(self).core.buffer().push(tx@)
                &&& final(self).core.started() == if old(self).core.buffer().len() == 0 {
                    now
                } else {
                    old(self).core.started()
                }
            },
    {
        self.core.submit_transaction(tx, now)
    }

    /// The batch timer fired at `now`.
    pub fn batch_timer_elapsed(&mut self, now: u64) -> (r: Vec<Action>)
        requires
            old(self).wf(),
        ensures
            final(self).wf(),
            final(self).synchronizer == old(self).synchronizer,
            final(self).core.max_size() == old(self).core.max_size(),
            final(self).core.delay() == old(self).core.delay(),
            within_size(views(r@), old(self).core.max_size()),
            if old(self).core.timer_due(now) {
                &&& is_seal(views(r@), crate::batch::encode_batch(old(self).core.buffer()))
                &&& final(self).core.buffer() == Seq::<Seq<u8>>::empty()
            } else {
                &&& r@.len() == 0
                &&& final(self).core.buffer() == old(self).core.buffer()
                &&& final(self).core.started() == old(self).core.started()
            },
    {
        self.core.batch_timer_elapsed(now)
    }

    /// A peer sent `batch`; `stored` tells whether the store already holds its digest.
    /// A batch over the size limit is dropped. Otherwise it is stored if new, consensus
    /// gets it if it waited for it, and it is sent to no other authority.
    pub fn receive_peer_batch(&mut self, batch: Vec<u8>, stored: bool) -> (r: Vec<Action>)
        requires
            old(self).wf(),
        ensures
            final(self).wf(),
            final(self).core == old(self).core,
            final(self).synchronizer.delay() == old(self).synchronizer.delay(),
            forwards_nothing(views(r@)),
            within_size(views(r@), old(self).core.max_size()),
            if batch@.len() > old(self).core.max_size() {
                &&& r@.len() == 0
                &&& final(self).synchronizer@ == old(self).synchronizer@
            } else {
                &&& final(self).synchronizer@ == after_arrival(old(self).synchronizer@, sha256_of(batch@))
                &&& exists|d: Digest| d@ == sha256_of(batch@) && views(r@) == (if stored {
                    Seq::<ActionView>::empty()
                } else {
                    seq![ActionView::Store { digest: d, batch: batch@ }]
                }) + (if is_pending(old(self).synchronizer@, d@) {
                    seq![ActionView::ReplyBatch { digest: d, batch: batch@ }]
                } else {
                    Seq::<ActionView>::empty()
                })
            },
    {
        if batch.len() > self.core.max_payload_size() {
            let r: Vec<Action> = Vec::new();
            assert(views(r@) =~= Seq::<ActionView>::empty());
            return r;
        }
        let digest = sha256(&batch);
        let mut replies = self.synchronizer.on_arrival(&digest, &batch);
        let mut r: Vec<Action> = Vec::new();
        if !stored {
            r.push(Action::Store { digest, batch });
        }
        let ghost first = r@;
        let ghost tail = replies@;
        r.append(&mut replies);
        assert(views(r@) =~= views(first) + views(tail));
        if !stored {
            assert(views(first) =~= seq![ActionView::Store { digest, batch: batch@ }]);
        } else {
            assert(views(first) =~= Seq::<ActionView>::empty());
        }
        r
    }

    /// Consensus asks for the batch `digest`, needed in `round`; `stored` is what the
    /// store holds under it. A stored batch is returned at once; otherwise the
    /// synchronizer asks the committee and the answer comes when the batch arrives.
    pub fn handle_consensus_request(&mut self, digest: &Digest, round: u64, stored: Option<Vec<u8>>, now: u64) -> (r: Vec<Action>)
        requires
            old(self).wf(),
        ensures
            final(self).wf(),
            final(self).core == old(self).core,
            final(self).synchronizer.delay() == old(self).synchronizer.delay(),
            match stored {
                Some(b) => {
                    &&& views(r@) == seq![ActionView::ReplyBatch { digest: *digest, batch: b@ }]
                    &&& final(self).synchronizer@ == old(self).synchronizer@
                },
                None => {
                    &&& final(self).synchronizer@ == after_request(old(self).synchronizer@, *digest, round, now)
                    &&& views(r@) == if is_pending(old(self).synchronizer@, digest@) {
                        Seq::<ActionView>::empty()
                    } else {
                        seq![ActionView::SyncRequest { digest: *digest }]
                    }
                },
            },
    {
        match stored {
            Some(b) => {
                let r = vec![Action::ReplyBatch { digest: *digest, batch: b }];
                assert(views(r@) =~= seq![r@[0]@]);
                r
            },
            None => self.synchronizer.request(digest, round, now),
        }
    }

    /// Consensus no longer needs the batches of rounds up to `watermark`.
    pub fn handle_consensus_cleanup(&mut self, watermark: u64)
        requires
            old(self).wf(),
        ensures
            final(self).wf(),
            final(self).core == old(self).core,
            final(self).synchronizer.delay() == old(self).synchronizer.delay(),
            final(self).synchronizer@ == after_cleanup(old(self).synchronizer@, watermark),
    {
        self.synchronizer.on_cleanup(watermark)
    }

    /// The retry timer of `digest` fired at `now`.
    pub fn sync_timeout(&mut self, digest: &Digest, now: u64) -> (r: Vec<Action>)
        requires
            old(self).wf(),
        ensures
            final(self).wf(),
            final(self).core == old(self).core,
            final(self).synchronizer.delay() == old(self).synchronizer.delay(),
            final(self).synchronizer@ == after_timeout(old(self).synchronizer@, digest@, now, old(self).synchronizer.delay()),
            views(r@) == if retry_due(old(self).synchronizer@, digest@, now, old(self).synchronizer.delay()) {
                seq![ActionView::SyncRequest { digest: *digest }]
            } else {
                Seq::<ActionView>::empty()
            },
    {
        self.synchronizer.on_timeout(digest, now)
    }

    /// The authority `from` asked for a batch; `stored` is what the store holds under
    /// its digest. A stored batch goes back to `from` alone.
    pub fn handle_sync_request(&self, from: u64, stored: Option<Vec<u8>>) -> (r: Vec<Action>)
        ensures
            views(r@) == match stored {
                Some(b) => seq![ActionView::SendBatch { to: from, batch: b@ }],
                None => Seq::<ActionView>::empty(),
            },
    {
        match stored {
            Some(b) => {
                let r = vec![Action::SendBatch { to: from, batch: b }];
                assert(views(r@) =~= seq![r@[0]@]);
                r
            },
            None => {
                let r: Vec<Action> = Vec::new();
                assert(views(r@) =~= Seq::<ActionView>::empty());
                r
            },
        }
    }
}

} // verus!
