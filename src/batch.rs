use vstd::prelude::*;
use sha2::Digest as _;

verus! {

/// Content identifier of a batch: a hash of its serialized bytes.
pub type Digest = [u8; 32];

/// Bytes taken by each length prefix of the serialized form.
pub const PREFIX_LEN: usize = 8;

/// The SHA-256 hash of a byte string.
pub uninterp spec fn sha256_of(bytes: Seq<u8>) -> Seq<u8>;

/// Relies on `sha2::Sha256::digest`: 32 bytes that depend on the input bytes alone.
#[verifier::external_body]
pub(crate) fn sha256(bytes: &Vec<u8>) -> (r: Digest)
    ensures
        r@ == sha256_of(bytes@),
{
    sha2::Sha256::digest(bytes.as_slice()).into()
}

/// The digest of a serialized batch.
pub fn batch_digest(batch: &Vec<u8>) -> (r: Digest)
    ensures
        r@ == sha256_of(batch@),
{
    sha256(batch)
}

/// The `k` low bytes of `n`, least significant first.
pub open spec fn le_bytes(n: nat, k: nat) -> Seq<u8>
    decreases k,
{
    if k == 0 {
        Seq::empty()
    } else {
        seq![(n % 256) as u8] + le_bytes(n / 256, (k - 1) as nat)
    }
}

/// One transaction on the wire: its length in eight bytes, then its bytes.
pub open spec fn encode_tx(tx: Seq<u8>) -> Seq<u8> {
    le_bytes(tx.len(), 8) + tx
}

/// Transactions on the wire, one after the other.
pub open spec fn encode_txs(txs: Seq<Seq<u8>>) -> Seq<u8>
    decreases txs.len(),
{
    if txs.len() == 0 {
        Seq::empty()
    } else {
        encode_txs(txs.drop_last()) + encode_tx(txs.last())
    }
}

/// A serialized batch: the number of transactions in eight bytes, then each transaction.
pub open spec fn encode_batch(txs: Seq<Seq<u8>>) -> Seq<u8> {
    le_bytes(txs.len(), 8) + encode_txs(txs)
}

/// Serialized size of a sequence of transactions.
pub open spec fn txs_size(txs: Seq<Seq<u8>>) -> nat
    decreases txs.len(),
{
    if txs.len() == 0 {
        0
    } else {
        txs_size(txs.drop_last()) + 8 + txs.last().len()
    }
}

/// Serialized size of a batch.
pub open spec fn batch_size(txs: Seq<Seq<u8>>) -> nat {
    8 + txs_size(txs)
}

pub proof fn lemma_le_bytes_len(n: nat, k: nat)
    ensures
        le_bytes(n, k).len() == k,
    decreases k,
{
    if k > 0 {
        lemma_le_bytes_len(n / 256, (k - 1) as nat);
    }
}

pub proof fn lemma_encode_txs_len(txs: Seq<Seq<u8>>)
    ensures
        encode_txs(txs).len() == txs_size(txs),
    decreases txs.len(),
{
    if txs.len() > 0 {
        lemma_encode_txs_len(txs.drop_last());
        lemma_le_bytes_len(txs.last().len(), 8);
    }
}

pub proof fn lemma_txs_size_bounds_len(txs: Seq<Seq<u8>>)
    ensures
        txs_size(txs) >= 8 * txs.len(),
    decreases txs.len(),
{
    if txs.len() > 0 {
        lemma_txs_size_bounds_len(txs.drop_last());
    }
}

pub proof fn lemma_encode_batch_len(txs: Seq<Seq<u8>>)
    ensures
        encode_batch(txs).len() == batch_size(txs),
{
    lemma_encode_txs_len(txs);
    lemma_le_bytes_len(txs.len(), 8);
}

/// Appends the eight little-endian bytes of `n`.
pub fn push_u64_le(out: &mut Vec<u8>, n: u64)
    ensures
        final(out)@ == old(out)@ + le_bytes(n as nat, 8),
{
    let ghost start = out@;
    let mut x: u64 = n;
    let mut i: usize = 0;
    while i < PREFIX_LEN
        invariant
            i <= 8,
            start + le_bytes(n as nat, 8) == out@ + le_bytes(x as nat, (8 - i) as nat),
        decreases 8 - i,
    {
        let b: u8 = (x % 256) as u8;
        proof {
            let rest = le_bytes((x / 256) as nat, (8 - i - 1) as nat);
            assert(le_bytes(x as nat, (8 - i) as nat) == seq![b] + rest);
            assert(out@.push(b) + rest =~= out@ + (seq![b] + rest));
        }
        out.push(b);
        x = x / 256;
        i = i + 1;
    }
    assert(out@ + le_bytes(x as nat, 0) =~= out@);
}

/// Appends the bytes of `src`.
pub fn push_bytes(out: &mut Vec<u8>, src: &Vec<u8>)
    ensures
        final(out)@ == old(out)@ + src@,
{
    let ghost start = out@;
    let mut i: usize = 0;
    while i < src.len()
        invariant
            i <= src@.len(),
            out@ == start + src@.subrange(0, i as int),
        decreases src@.len() - i,
    {
        out.push(src[i]);
        i = i + 1;
        assert(out@ =~= start + src@.subrange(0, i as int));
    }
    assert(src@.subrange(0, src@.len() as int) =~= src@);
}

/// Whether two digests hold the same bytes.
pub fn digest_eq(a: &Digest, b: &Digest) -> (r: bool)
    ensures
        r == (a@ == b@),
{
    let mut i: usize = 0;
    while i < 32
        invariant
            i <= 32,
            a@.len() == 32,
            b@.len() == 32,
            forall|j: int| 0 <= j < i ==> a@[j] == b@[j],
        decreases 32 - i,
    {
        if a[i] != b[i] {
            return false;
        }
        i = i + 1;
    }
    assert(a@ =~= b@);
    true
}

} // verus!
