use vstd::prelude::*;
use crate::batch::Digest;

verus! {

/// Work that the mempool asks its surroundings to carry out.
#[derive(Debug, Clone, PartialEq, Eq)]
pub enum Action {
    /// Persist `batch` in the store under `digest`.
    Store { digest: Digest, batch: Vec<u8> },
    /// Send `batch` to every other authority.
    BroadcastBatch { batch: Vec<u8> },
    /// Ask every other authority for the batch with `digest`.
    SyncRequest { digest: Digest },
    /// Send `batch` to the single authority `to`, answering its sync request.
    SendBatch { to: u64, batch: Vec<u8> },
    /// Tell consensus that a batch of this authority, with `digest`, can be proposed.
    AnnounceDigest { digest: Digest },
    /// Answer a lookup of `digest` made by consensus.
    ReplyBatch { digest: Digest, batch: Vec<u8> },
}

/// An `Action` with its byte strings seen as sequences.
pub ghost enum ActionView {
    Store { digest: Digest, batch: Seq<u8> },
    BroadcastBatch { batch: Seq<u8> },
    SyncRequest { digest: Digest },
    SendBatch { to: u64, batch: Seq<u8> },
    AnnounceDigest { digest: Digest },
    ReplyBatch { digest: Digest, batch: Seq<u8> },
}

impl View for Action {
    type V = ActionView;

    open spec fn view(&self) -> ActionView {
        match self {
            Action::Store { digest, batch } => ActionView::Store { digest: *digest, batch: batch@ },
            Action::BroadcastBatch { batch } => ActionView::BroadcastBatch { batch: batch@ },
            Action::SyncRequest { digest } => ActionView::SyncRequest { digest: *digest },
            Action::SendBatch { to, batch } => ActionView::SendBatch { to: *to, batch: batch@ },
            Action::AnnounceDigest { digest } => ActionView::AnnounceDigest { digest: *digest },
            Action::ReplyBatch { digest, batch } => ActionView::ReplyBatch {
                digest: *digest,
                batch: batch@,
            },
        }
    }
}

/// The views of a list of actions.
pub open spec fn views(acts: Seq<Action>) -> Seq<ActionView> {
    acts.map_values(|a: Action| a@)
}

} // verus!
