use mempool::action::Action;
use mempool::Mempool;
use sha2::Digest as _;

fn sha(bytes: &[u8]) -> [u8; 32] {
    sha2::Sha256::digest(bytes).into()
}

fn le8(n: u64) -> Vec<u8> {
    n.to_le_bytes().to_vec()
}

fn encode(txs: &[Vec<u8>]) -> Vec<u8> {
    let mut out = le8(txs.len() as u64);
    for tx in txs {
        out.extend(le8(tx.len() as u64));
        out.extend(tx.iter().copied());
    }
    out
}

fn sealed_batch(acts: &[Action]) -> Vec<u8> {
    assert_eq!(acts.len(), 3);
    let (digest, batch) = match &acts[0] {
        Action::Store { digest, batch } => (*digest, batch.clone()),
        other => panic!("expected a store, got {:?}", other),
    };
    assert_eq!(acts[1], Action::BroadcastBatch { batch: batch.clone() });
    assert_eq!(acts[2], Action::AnnounceDigest { digest });
    assert_eq!(digest, sha(&batch));
    batch
}

#[test]
fn overflow_seals_the_first_three() {
    let mut m = Mempool::new(1000, 10_000, 100);
    let txs: Vec<Vec<u8>> = (0..3u8).map(|i| vec![i; 300]).collect();
    for tx in &txs {
        assert!(m.submit_transaction(tx.clone(), 1).is_empty());
    }
    assert_eq!(m.core.buffered_count(), 3);
    let acts = m.submit_transaction(vec![9u8; 200], 2);
    assert_eq!(sealed_batch(&acts), encode(&txs));
    assert_eq!(m.core.buffered_count(), 1);
}

#[test]
fn exact_serialized_form() {
    let mut m = Mempool::new(1000, 0, 100);
    m.submit_transaction(vec![1, 2, 3], 5);
    let acts = m.batch_timer_elapsed(5);
    let expected: Vec<u8> = vec![1, 0, 0, 0, 0, 0, 0, 0, 3, 0, 0, 0, 0, 0, 0, 0, 1, 2, 3];
    assert_eq!(sealed_batch(&acts), expected);
}

#[test]
fn batch_that_fills_the_limit_exactly_is_not_sealed_early() {
    // 8 + (8 + 84) = 100 bytes: exactly the limit.
    let mut m = Mempool::new(100, 10_000, 100);
    assert!(m.submit_transaction(vec![7u8; 84], 0).is_empty());
    assert_eq!(m.core.buffered_count(), 1);
    let acts = m.submit_transaction(vec![1u8], 0);
    assert_eq!(sealed_batch(&acts).len(), 100);
}

#[test]
fn timer_seals_after_min_block_delay() {
    let mut m = Mempool::new(1000, 50, 100);
    assert!(m.batch_timer_elapsed(1_000).is_empty());
    m.submit_transaction(vec![4u8; 10], 100);
    m.submit_transaction(vec![5u8; 10], 120);
    assert!(m.batch_timer_elapsed(149).is_empty());
    let acts = m.batch_timer_elapsed(150);
    assert_eq!(sealed_batch(&acts), encode(&[vec![4u8; 10], vec![5u8; 10]]));
    assert_eq!(m.core.buffered_count(), 0);
    assert!(m.batch_timer_elapsed(400).is_empty());
}

#[test]
fn oversized_transaction_is_dropped() {
    let mut m = Mempool::new(100, 50, 100);
    m.submit_transaction(vec![1u8; 10], 0);
    assert!(m.submit_transaction(vec![2u8; 85], 0).is_empty());
    assert_eq!(m.core.buffered_count(), 1);
}

#[test]
fn sealed_batches_stay_within_the_limit() {
    let max: usize = 300;
    let mut m = Mempool::new(max, 1_000_000, 100);
    let mut sealed = 0;
    for i in 0..200u64 {
        let len = ((i * 37) % 120) as usize;
        for a in m.submit_transaction(vec![i as u8; len], i) {
            if let Action::Store { batch, .. } = a {
                assert!(batch.len() <= max);
                sealed += 1;
            }
        }
    }
    assert!(sealed > 10);
}

#[test]
fn equal_batches_get_equal_digests() {
    let mut a = Mempool::new(1000, 0, 100);
    let mut b = Mempool::new(1000, 0, 100);
    a.submit_transaction(vec![3u8; 40], 0);
    b.submit_transaction(vec![3u8; 40], 7);
    let x = a.batch_timer_elapsed(0);
    let y = b.batch_timer_elapsed(7);
    assert_eq!(x[0], y[0]);
    let mut c = Mempool::new(1000, 0, 100);
    c.submit_transaction(vec![4u8; 40], 0);
    assert_ne!(c.batch_timer_elapsed(0)[0], x[0]);
}

#[test]
fn peer_batch_is_stored_and_never_forwarded() {
    let mut m = Mempool::new(1000, 50, 100);
    let batch = encode(&[vec![1u8; 20]]);
    let acts = m.receive_peer_batch(batch.clone(), false);
    assert_eq!(acts, vec![Action::Store { digest: sha(&batch), batch: batch.clone() }]);
    assert!(m.receive_peer_batch(batch, true).is_empty());
}

#[test]
fn oversized_peer_batch_is_dropped() {
    let mut m = Mempool::new(30, 50, 100);
    let batch = encode(&[vec![1u8; 20]]);
    assert_eq!(batch.len(), 36);
    assert!(m.receive_peer_batch(batch, false).is_empty());
}

#[test]
fn stored_batch_is_returned_at_once() {
    let mut m = Mempool::new(1000, 50, 100);
    let batch = encode(&[vec![6u8; 3]]);
    let d = sha(&batch);
    let acts = m.handle_consensus_request(&d, 1, Some(batch.clone()), 0);
    assert_eq!(acts, vec![Action::ReplyBatch { digest: d, batch }]);
    assert_eq!(m.synchronizer.pending_count(), 0);
}

#[test]
fn missing_batch_is_fetched_with_retries() {
    let mut m = Mempool::new(1000, 50, 100);
    let batch = encode(&[vec![8u8; 12]]);
    let d = sha(&batch);
    assert_eq!(m.handle_consensus_request(&d, 1, None, 1_000), vec![Action::SyncRequest { digest: d }]);
    assert!(m.synchronizer.is_pending(&d));
    assert!(m.sync_timeout(&d, 1_050).is_empty());
    assert_eq!(m.sync_timeout(&d, 1_100), vec![Action::SyncRequest { digest: d }]);
    assert!(m.sync_timeout(&d, 1_150).is_empty());
    let acts = m.receive_peer_batch(batch.clone(), false);
    assert_eq!(
        acts,
        vec![
            Action::Store { digest: d, batch: batch.clone() },
            Action::ReplyBatch { digest: d, batch: batch.clone() },
        ]
    );
    assert!(m.sync_timeout(&d, 5_000).is_empty());
    assert!(m.receive_peer_batch(batch, true).is_empty());
}

#[test]
fn repeated_request_sends_nothing_more() {
    let mut m = Mempool::new(1000, 50, 100);
    let d = sha(b"x");
    assert_eq!(m.handle_consensus_request(&d, 1, None, 0).len(), 1);
    assert!(m.handle_consensus_request(&d, 2, None, 10).is_empty());
    assert_eq!(m.synchronizer.pending_count(), 1);
}

#[test]
fn cleanup_stops_retries() {
    let mut m = Mempool::new(1000, 50, 100);
    let old = sha(b"old");
    let new = sha(b"new");
    m.handle_consensus_request(&old, 3, None, 0);
    m.handle_consensus_request(&new, 7, None, 0);
    m.handle_consensus_cleanup(5);
    assert!(!m.synchronizer.is_pending(&old));
    assert!(m.synchronizer.is_pending(&new));
    assert!(m.sync_timeout(&old, 1_000).is_empty());
    assert_eq!(m.sync_timeout(&new, 1_000), vec![Action::SyncRequest { digest: new }]);
}

#[test]
fn cleanup_keeps_request_renewed_by_a_later_round() {
    let mut m = Mempool::new(1000, 50, 100);
    let d = sha(b"d");
    m.handle_consensus_request(&d, 3, None, 0);
    m.handle_consensus_request(&d, 9, None, 0);
    m.handle_consensus_cleanup(5);
    assert!(m.synchronizer.is_pending(&d));
}

#[test]
fn sync_request_from_peer_is_answered_to_it_alone() {
    let m = Mempool::new(1000, 50, 100);
    let batch = encode(&[vec![2u8; 5]]);
    assert_eq!(m.handle_sync_request(4, Some(batch.clone())), vec![Action::SendBatch { to: 4, batch }]);
    assert!(m.handle_sync_request(4, None).is_empty());
}
