use vstd::prelude::*;
use crate::action::{Action, ActionView, views};
use crate::batch::{Digest, digest_eq};

verus! {

/// A batch that consensus needs and that the store does not hold yet.
#[derive(Clone, Copy, Debug, PartialEq, Eq)]
pub struct PendingRequest {
    pub digest: Digest,
    /// Highest consensus round that asked for the batch.
    pub round: u64,
    /// Time (ms) at which the last sync request went out.
    pub last_sent: u64,
    /// Sync requests sent again after the first one (saturating).
    pub retries: u64,
}

/// Index of the request for `d` in `s`, or -1 where there is none.
pub open spec fn position(s: Seq<PendingRequest>, d: Seq<u8>) -> int
    decreases s.len(),
{
    if s.len() == 0 {
        -1
    } else if s.last().digest@ == d {
        s.len() - 1
    } else {
        position(s.drop_last(), d)
    }
}

/// No digest has two requests.
pub open spec fn distinct(s: Seq<PendingRequest>) -> bool {
    forall|i: int, j: int|
        0 <= i < j < s.len() ==> #[trigger] s[i].digest@ != #[trigger] s[j].digest@
}

pub open spec fn is_pending(s: Seq<PendingRequest>, d: Seq<u8>) -> bool {
    position(s, d) >= 0
}

pub open spec fn max_u64(a: u64, b: u64) -> u64 {
    if a >= b { a } else { b }
}

pub open spec fn saturating_inc(a: u64) -> u64 {
    if a < u64::MAX { (a + 1) as u64 } else { a }
}

/// The table after consensus asked for `d` in `round` at time `now`.
pub open spec fn after_request(s: Seq<PendingRequest>, d: Digest, round: u64, now: u64) -> Seq<PendingRequest> {
    let p = position(s, d@);
    if p < 0 {
        s.push(PendingRequest { digest: d, round, last_sent: now, retries: 0 })
    } else {
        s.update(p, PendingRequest { round: max_u64(s[p].round, round), ..s[p] })
    }
}

/// Whether a timeout for `d` at `now` sends the sync request again.
pub open spec fn retry_due(s: Seq<PendingRequest>, d: Seq<u8>, now: u64, delay: u64) -> bool {
    let p = position(s, d);
    p >= 0 && now >= s[p].last_sent + delay
}

/// The table after a timeout for `d` at `now`.
pub open spec fn after_timeout(s: Seq<PendingRequest>, d: Seq<u8>, now: u64, delay: u64) -> Seq<PendingRequest> {
    let p = position(s, d);
    if retry_due(s, d, now, delay) {
        s.update(p, PendingRequest { last_sent: now, retries: saturating_inc(s[p].retries), ..s[p] })
    } else {
        s
    }
}

/// The table after the batch with digest `d` arrived.
pub open spec fn after_arrival(s: Seq<PendingRequest>, d: Seq<u8>) -> Seq<PendingRequest> {
    let p = position(s, d);
    if p >= 0 { s.remove(p) } else { s }
}

/// The requests whose round is above `watermark`, in their order.
pub open spec fn after_cleanup(s: Seq<PendingRequest>, watermark: u64) -> Seq<PendingRequest>
    decreases s.len(),
{
    if s.len() == 0 {
        s
    } else {
        let rest = after_cleanup(s.drop_last(), watermark);
        if s.last().round > watermark { rest.push(s.last()) } else { rest }
    }
}

pub proof fn lemma_position(s: Seq<PendingRequest>, d: Seq<u8>)
    ensures
        -1 <= position(s, d) < s.len(),
        position(s, d) >= 0 ==> s[position(s, d)].digest@ == d,
        position(s, d) < 0 <==> forall|i: int| 0 <= i < s.len() ==> s[i].digest@ != d,
    decreases s.len(),
{
    if s.len() > 0 {
        lemma_position(s.drop_last(), d);
        if s.last().digest@ != d {
            assert forall|i: int| 0 <= i < s.drop_last().len() implies s[i] == s.drop_last()[i] by {}
        }
    }
}

pub proof fn lemma_position_unique(s: Seq<PendingRequest>, d: Seq<u8>, i: int)
    requires
        distinct(s),
        0 <= i < s.len(),
        s[i].digest@ == d,
    ensures
        position(s, d) == i,
    decreases s.len(),
{
    if i < s.len() - 1 {
        assert(s[i].digest@ != s[s.len() - 1].digest@);
        assert(s.drop_last()[i] == s[i]);
        lemma_position_unique(s.drop_last(), d, i);
    }
}

pub proof fn lemma_cleanup(s: Seq<PendingRequest>, watermark: u64)
    requires
        distinct(s),
    ensures
        distinct(after_cleanup(s, watermark)),
        forall|k: int| 0 <= k < after_cleanup(s, watermark).len() ==>
            s.contains(#[trigger] after_cleanup(s, watermark)[k])
            && after_cleanup(s, watermark)[k].round > watermark,
        forall|k: int| 0 <= k < s.len() && #[trigger] s[k].round > watermark
            ==> after_cleanup(s, watermark).contains(s[k]),
    decreases s.len(),
{
    if s.len() > 0 {
        let t = s.drop_last();
        assert forall|i: int, j: int| 0 <= i < j < t.len() implies #[trigger] t[i].digest@ != #[trigger] t[j].digest@ by {
            assert(t[i] == s[i] && t[j] == s[j]);
        }
        lemma_cleanup(t, watermark);
        let rest = after_cleanup(t, watermark);
        assert forall|k: int| 0 <= k < rest.len() implies #[trigger] rest[k].digest@ != s.last().digest@ by {
            let x = rest[k];
            assert(t.contains(x));
            let i = choose|i: int| 0 <= i < t.len() && t[i] == x;
            assert(s[i] == x);
            assert(s[i].digest@ != s[s.len() - 1].digest@);
        }
        assert forall|k: int| 0 <= k < rest.len() implies s.contains(#[trigger] rest[k]) by {
            let i = choose|i: int| 0 <= i < t.len() && t[i] == rest[k];
            assert(s[i] == rest[k]);
        }
        assert forall|k: int| 0 <= k < s.len() && #[trigger] s[k].round > watermark
            implies after_cleanup(s, watermark).contains(s[k]) by {
            if k < s.len() - 1 {
                assert(t[k] == s[k]);
                assert(rest.contains(s[k]));
                let i = choose|i: int| 0 <= i < rest.len() && rest[i] == s[k];
                if s.last().round > watermark {
                    assert(rest.push(s.last())[i] == s[k]);
                }
            } else {
                assert(rest.push(s.last())[rest.len() as int] == s[k]);
            }
        }
    }
}

/// Tracks the batches that consensus waits for and asks the committee for them
/// until they arrive or consensus no longer needs them.
pub struct Synchronizer {
    /// Time (ms) between two sync requests for the same batch.
    retry_delay: u64,
    pending: Vec<PendingRequest>,
}

impl View for Synchronizer {
    type V = Seq<PendingRequest>;

    closed spec fn view(&self) -> Seq<PendingRequest> {
        self.pending@
    }
}

impl Synchronizer {
    /// Time (ms) between two sync requests for the same batch.
    pub closed spec fn delay(&self) -> u64 {
        self.retry_delay
    }

    pub open spec fn wf(&self) -> bool {
        distinct(self@)
    }

    pub fn new(retry_delay: u64) -> (r: Self)
        ensures
            r.wf(),
            r@ == Seq::<PendingRequest>::empty(),
            r.delay() == retry_delay,
    {
        Synchronizer { retry_delay, pending: Vec::new() }
    }

    /// Index of the request for `d`, if there is one.
    fn find(&self, d: &Digest) -> (r: Option<usize>)
        requires
            self.wf(),
        ensures
            match r {
                None => position(self@, d@) < 0,
                Some(i) => i == position(self@, d@) && i < self@.len() && self@[i as int].digest@ == d@,
            },
            position(self@, d@) < 0 <==> forall|j: int| 0 <= j < self@.len() ==> self@[j].digest@ != d@,
    {
        proof {
            lemma_position(self@, d@);
        }
        let mut i: usize = 0;
        while i < self.pending.len()
            invariant
                i <= self@.len(),
                distinct(self@),
                forall|j: int| 0 <= j < i ==> self@[j].digest@ != d@,
            decreases self@.len() - i,
        {
            if digest_eq(&self.pending[i].digest, d) {
                proof {
                    lemma_position_unique(self@, d@, i as int);
                }
                return Some(i);
            }
            i = i + 1;
        }
        None
    }

    /// Whether a batch with digest `d` is waited for.
    pub fn is_pending(&self, d: &Digest) -> (r: bool)
        requires
            self.wf(),
        ensures
            r == is_pending(self@, d@),
    {
        self.find(d).is_some()
    }

    /// Number of batches waited for.
    pub fn pending_count(&self) -> (r: usize)
        ensures
            r == self@.len(),
    {
        self.pending.len()
    }

    /// The digests waited for, in the table's order.
    pub fn pending_digests(&self) -> (r: Vec<Digest>)
        ensures
            r@.len() == self@.len(),
            forall|i: int| 0 <= i < r@.len() ==> r@[i] == self@[i].digest,
    {
        let mut r: Vec<Digest> = Vec::new();
        let mut i: usize = 0;
        while i < self.pending.len()
            invariant
                i <= self@.len(),
                r@.len() == i,
                forall|j: int| 0 <= j < i ==> r@[j] == self@[j].digest,
            decreases self@.len() - i,
        {
            r.push(self.pending[i].digest);
            i = i + 1;
        }
        r
    }

    /// Consensus needs the batch `d` in `round`: ask the committee for it, unless it
    /// was asked for already.
    pub fn request(&mut self, d: &Digest, round: u64, now: u64) -> (r: Vec<Action>)
        requires
            old(self).wf(),
        ensures
            final(self).wf(),
            final(self).delay() == old(self).delay(),
            final(self)@ == after_request(old(self)@, *d, round, now),
            views(r@) == if is_pending(old(self)@, d@) {
                Seq::<ActionView>::empty()
            } else {
                seq![ActionView::SyncRequest { digest: *d }]
            },
    {
        proof {
            lemma_position(self@, d@);
        }
        match self.find(d) {
            Some(i) => {
                let p = self.pending[i];
                let round = if p.round >= round { p.round } else { round };
                self.pending.set(i, PendingRequest { round, ..p });
                let r: Vec<Action> = Vec::new();
                assert(views(r@) =~= Seq::<ActionView>::empty());
                r
            },
            None => {
                self.pending.push(PendingRequest { digest: *d, round, last_sent: now, retries: 0 });
                let r = vec![Action::SyncRequest { digest: *d }];
                assert(views(r@) =~= seq![ActionView::SyncRequest { digest: *d }]);
                r
            },
        }
    }

    /// The retry timer of `d` fired at `now`: ask again if the batch is still waited
    /// for and the last request is at least `retry_delay` old.
    pub fn on_timeout(&mut self, d: &Digest, now: u64) -> (r: Vec<Action>)
        requires
            old(self).wf(),
        ensures
            final(self).wf(),
            final(self).delay() == old(self).delay(),
            final(self)@ == after_timeout(old(self)@, d@, now, old(self).delay()),
            views(r@) == if retry_due(old(self)@, d@, now, old(self).delay()) {
                seq![ActionView::SyncRequest { digest: *d }]
            } else {
                Seq::<ActionView>::empty()
            },
    {
        match self.find(d) {
            Some(i) => {
                let p = self.pending[i];
                if now >= p.last_sent && now - p.last_sent >= self.retry_delay {
                    let retries = if p.retries < u64::MAX { p.retries + 1 } else { p.retries };
                    self.pending.set(i, PendingRequest { last_sent: now, retries, ..p });
                    let r = vec![Action::SyncRequest { digest: *d }];
                    assert(views(r@) =~= seq![ActionView::SyncRequest { digest: *d }]);
                    r
                } else {
                    let r: Vec<Action> = Vec::new();
                    assert(views(r@) =~= Seq::<ActionView>::empty());
                    r
                }
            },
            None => {
                let r: Vec<Action> = Vec::new();
                assert(views(r@) =~= Seq::<ActionView>::empty());
                r
            },
        }
    }

    /// The batch `d` arrived: answer consensus if it waited for it, and stop asking.
    pub fn on_arrival(&mut self, d: &Digest, batch: &Vec<u8>) -> (r: Vec<Action>)
        requires
            old(self).wf(),
        ensures
            final(self).wf(),
            final(self).delay() == old(self).delay(),
            final(self)@ == after_arrival(old(self)@, d@),
            views(r@) == if is_pending(old(self)@, d@) {
                seq![ActionView::ReplyBatch { digest: *d, batch: batch@ }]
            } else {
                Seq::<ActionView>::empty()
            },
    {
        match self.find(d) {
            Some(i) => {
                let ghost s = self@;
                self.pending.remove(i);
                assert forall|a: int, b: int| 0 <= a < b < self@.len() implies
                    #[trigger] self@[a].digest@ != #[trigger] self@[b].digest@ by {
                    let a0 = if a < i { a } else { a + 1 };
                    let b0 = if b < i { b } else { b + 1 };
                    assert(self@[a] == s[a0] && self@[b] == s[b0]);
                }
                let copy = batch.clone();
                assert(copy@ =~= batch@);
                let r = vec![Action::ReplyBatch { digest: *d, batch: copy }];
                assert(views(r@) =~= seq![ActionView::ReplyBatch { digest: *d, batch: batch@ }]);
                r
            },
            None => {
                let r: Vec<Action> = Vec::new();
                assert(views(r@) =~= Seq::<ActionView>::empty());
                r
            },
        }
    }

    /// Consensus moved past `watermark`: drop, unanswered, every request of a round at
    /// or below it.
    pub fn on_cleanup(&mut self, watermark: u64)
        requires
            old(self).wf(),
        ensures
            final(self).wf(),
            final(self).delay() == old(self).delay(),
            final(self)@ == after_cleanup(old(self)@, watermark),
    {
        let ghost s = self@;
        let mut kept: Vec<PendingRequest> = Vec::new();
        let mut i: usize = 0;
        while i < self.pending.len()
            invariant
                self@ == s,
                i <= s.len(),
                kept@ == after_cleanup(s.subrange(0, i as int), watermark),
            decreases s.len() - i,
        {
            let p = self.pending[i];
            proof {
                assert(s.subrange(0, i + 1).drop_last() =~= s.subrange(0, i as int));
            }
            if p.round > watermark {
                kept.push(p);
            }
            i = i + 1;
        }
        proof {
            assert(s.subrange(0, s.len() as int) =~= s);
            lemma_cleanup(s, watermark);
        }
        self.pending = kept;
    }
}

} // verus!
