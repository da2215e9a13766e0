use vstd::prelude::*;
use crate::action::ActionView;
use crate::batch::sha256_of;
use crate::batcher::{Core, is_seal};
use crate::synchronizer::{
    PendingRequest, after_arrival, after_cleanup, after_timeout, distinct, is_pending,
    lemma_cleanup, lemma_position, retry_due,
};

verus! {

/// The store write that an action makes, as (key, bytes), if it makes one.
pub open spec fn write_of(a: ActionView) -> Option<(Seq<u8>, Seq<u8>)> {
    match a {
        ActionView::Store { digest, batch } => Some((digest@, batch)),
        _ => None,
    }
}

/// The store contents `m` after the writes among `acts`, in order.
pub open spec fn apply_writes(m: Map<Seq<u8>, Seq<u8>>, acts: Seq<ActionView>) -> Map<Seq<u8>, Seq<u8>>
    decreases acts.len(),
{
    if acts.len() == 0 {
        m
    } else {
        let before = apply_writes(m, acts.drop_last());
        match write_of(acts.last()) {
            Some((key, bytes)) => before.insert(key, bytes),
            None => before,
        }
    }
}

/// The table after retry timeouts fire for the (digest, time) pairs of `fired`, in order.
pub open spec fn after_timeouts(s: Seq<PendingRequest>, fired: Seq<(Seq<u8>, u64)>, delay: u64) -> Seq<PendingRequest>
    decreases fired.len(),
{
    if fired.len() == 0 {
        s
    } else {
        after_timeout(after_timeouts(s, fired.drop_last(), delay), fired.last().0, fired.last().1, delay)
    }
}

/// Content addressing: where every store write among `acts` puts `batch` under its own
/// hash, and one of them does, the store then answers that hash with exactly `batch`.
pub proof fn law_content_addressing(m: Map<Seq<u8>, Seq<u8>>, acts: Seq<ActionView>, batch: Seq<u8>)
    requires
        exists|i: int| 0 <= i < acts.len() && write_of(#[trigger] acts[i]) == Some((sha256_of(batch), batch)),
        forall|j: int| 0 <= j < acts.len() && (#[trigger] write_of(acts[j])) is Some
            ==> write_of(acts[j]) == Some((sha256_of(batch), batch)),
    ensures
        apply_writes(m, acts).contains_key(sha256_of(batch)),
        apply_writes(m, acts)[sha256_of(batch)] == batch,
    decreases acts.len(),
{
    let last = acts.len() - 1;
    if write_of(acts[last]) is None {
        let i = choose|i: int| 0 <= i < acts.len() && write_of(#[trigger] acts[i]) == Some((sha256_of(batch), batch));
        let rest = acts.drop_last();
        assert(rest[i] == acts[i]);
        assert forall|j: int| 0 <= j < rest.len() && (#[trigger] write_of(rest[j])) is Some
            implies write_of(rest[j]) == Some((sha256_of(batch), batch)) by {
            assert(rest[j] == acts[j]);
        }
        law_content_addressing(m, rest, batch);
    }
}

/// Sealing is content addressed: once the actions that seal a batch are carried out, the
/// store answers the batch's hash with exactly its bytes; and equal bytes hash alike.
pub proof fn law_sealed_batch_retrievable(m: Map<Seq<u8>, Seq<u8>>, acts: Seq<ActionView>, batch: Seq<u8>, same: Seq<u8>)
    requires
        is_seal(acts, batch),
    ensures
        apply_writes(m, acts)[sha256_of(batch)] == batch,
        same == batch ==> sha256_of(same) == sha256_of(batch),
{
    assert(write_of(acts[0]) == Some((sha256_of(batch), batch)));
    assert forall|j: int| 0 <= j < acts.len() && (#[trigger] write_of(acts[j])) is Some
        implies write_of(acts[j]) == Some((sha256_of(batch), batch)) by {}
    law_content_addressing(m, acts, batch);
}

/// Latency bound: a transaction submitted at `submitted` into a buffer that started no
/// later (`Core::submit_transaction` sets the start to the submission time of the first
/// buffered transaction) is sealed by any batch timer firing `min_block_delay` after it.
pub proof fn law_latency_bound(core: Core, submitted: u64, now: u64)
    requires
        core.buffer().len() > 0,
        core.started() <= submitted,
        now >= submitted + core.delay(),
    ensures
        core.timer_due(now),
{
}

proof fn lemma_timeouts_keep_digests(s: Seq<PendingRequest>, fired: Seq<(Seq<u8>, u64)>, delay: u64)
    ensures
        after_timeouts(s, fired, delay).len() == s.len(),
        forall|i: int| 0 <= i < s.len() ==> (#[trigger] after_timeouts(s, fired, delay)[i]).digest == s[i].digest
            && after_timeouts(s, fired, delay)[i].round == s[i].round,
    decreases fired.len(),
{
    if fired.len() > 0 {
        let t = after_timeouts(s, fired.drop_last(), delay);
        lemma_timeouts_keep_digests(s, fired.drop_last(), delay);
        lemma_position(t, fired.last().0);
    }
}

/// Liveness under loss: a batch that consensus waits for stays waited for through any
/// number of retry timeouts, whatever became of the requests they sent; when it arrives,
/// consensus is answered (see `Synchronizer::on_arrival`) and no request for it is left.
pub proof fn law_liveness_under_loss(s: Seq<PendingRequest>, d: Seq<u8>, fired: Seq<(Seq<u8>, u64)>, delay: u64)
    requires
        distinct(s),
        is_pending(s, d),
    ensures
        distinct(after_timeouts(s, fired, delay)),
        is_pending(after_timeouts(s, fired, delay), d),
        !is_pending(after_arrival(after_timeouts(s, fired, delay), d), d),
{
    let t = after_timeouts(s, fired, delay);
    lemma_timeouts_keep_digests(s, fired, delay);
    lemma_position(s, d);
    lemma_position(t, d);
    assert forall|i: int, j: int| 0 <= i < j < t.len() implies #[trigger] t[i].digest@ != #[trigger] t[j].digest@ by {
        assert(s[i].digest@ != s[j].digest@);
    }
    let ps = crate::synchronizer::position(s, d);
    assert(t[ps].digest == s[ps].digest);
    let p = crate::synchronizer::position(t, d);
    assert(0 <= p < t.len() && t[p].digest@ == d);
    let u = t.remove(p);
    assert(after_arrival(t, d) == u);
    lemma_position(u, d);
    assert forall|k: int| 0 <= k < u.len() implies u[k].digest@ != d by {
        if k < p {
            assert(u[k] == t[k]);
            assert(t[k].digest@ != t[p].digest@);
        } else {
            assert(u[k] == t[k + 1]);
            assert(t[p].digest@ != t[k + 1].digest@);
        }
    }
}

/// Cleanup correctness: after consensus moves past `watermark`, a batch that was waited
/// for only for rounds up to it is no longer waited for, and no later retry timeout for
/// it sends a request.
pub proof fn law_cleanup_silences(s: Seq<PendingRequest>, watermark: u64, d: Seq<u8>, fired: Seq<(Seq<u8>, u64)>, delay: u64, now: u64)
    requires
        distinct(s),
        forall|i: int| 0 <= i < s.len() && (#[trigger] s[i]).digest@ == d ==> s[i].round <= watermark,
    ensures
        !is_pending(after_cleanup(s, watermark), d),
        !retry_due(after_timeouts(after_cleanup(s, watermark), fired, delay), d, now, delay),
{
    let c = after_cleanup(s, watermark);
    lemma_cleanup(s, watermark);
    lemma_position(c, d);
    assert forall|k: int| 0 <= k < c.len() implies c[k].digest@ != d by {
        assert(s.contains(c[k]));
    }
    let t = after_timeouts(c, fired, delay);
    lemma_timeouts_keep_digests(c, fired, delay);
    lemma_position(t, d);
    assert forall|k: int| 0 <= k < t.len() implies t[k].digest@ != d by {
        assert(t[k].digest == c[k].digest);
    }
}

} // verus!
