//! The XOR parity block and its erasure-coding property.
//!
//! XOR-folding every page of a slot yields a parity block from which any one
//! page can be reconstructed, given the other pages' contents.

use vstd::prelude::*;
use vstd::assert_seqs_equal;

use crate::PAGE_SIZE;

verus! {

/// One page worth of zero bytes, the neutral element of the fold.
pub open spec fn zero_page() -> Seq<u8> {
    Seq::new(PAGE_SIZE as nat, |i: int| 0u8)
}

/// Byte-wise XOR of two equally long byte sequences.
pub open spec fn bytes_xor(a: Seq<u8>, b: Seq<u8>) -> Seq<u8> {
    Seq::new(a.len(), |i: int| a[i] ^ b[i])
}

/// The parity block of a sequence of page payloads: the XOR fold of all of
/// them, every page contributing equally regardless of position.
pub open spec fn parity_of(ds: Seq<Seq<u8>>) -> Seq<u8>
    decreases ds.len(),
{
    if ds.len() == 0 {
        zero_page()
    } else {
        bytes_xor(parity_of(ds.drop_last()), ds.last())
    }
}

/// Every payload in the sequence is exactly one page long.
pub open spec fn all_page_sized(ds: Seq<Seq<u8>>) -> bool {
    forall|i: int| 0 <= i < ds.len() ==> #[trigger] ds[i].len() == PAGE_SIZE
}

/// XORing two XOR-accumulations with a common term cancels that term.
pub proof fn lemma_bytes_xor_cancel(a: Seq<u8>, b: Seq<u8>, c: Seq<u8>)
    requires
        a.len() == b.len(),
        a.len() == c.len(),
    ensures
        bytes_xor(bytes_xor(a, c), bytes_xor(b, c)) == bytes_xor(a, b),
{
    assert forall|i: int| 0 <= i < a.len() implies
        bytes_xor(bytes_xor(a, c), bytes_xor(b, c))[i] == bytes_xor(a, b)[i] by {
        let x = a[i];
        let y = b[i];
        let z = c[i];
        assert((x ^ z) ^ (y ^ z) == x ^ y) by (bit_vector);
    }
    assert_seqs_equal!(bytes_xor(bytes_xor(a, c), bytes_xor(b, c)) == bytes_xor(a, b));
}

/// The parity of page-sized payloads is itself page-sized.
pub proof fn lemma_parity_len(ds: Seq<Seq<u8>>)
    requires
        all_page_sized(ds),
    ensures
        parity_of(ds).len() == PAGE_SIZE,
    decreases ds.len(),
{
    if ds.len() > 0 {
        assert(all_page_sized(ds.drop_last()));
        lemma_parity_len(ds.drop_last());
    }
}

/// Parity reconstruction: XOR-folding every payload except one, then XORing
/// with the parity of all of them, reproduces the excluded payload exactly.
/// This is what lets recovery rebuild a single lost page from the rest of the
/// slot plus the stored parity block.
pub proof fn lemma_parity_reconstruction(ds: Seq<Seq<u8>>, k: int)
    requires
        all_page_sized(ds),
        0 <= k < ds.len(),
    ensures
        bytes_xor(parity_of(ds.remove(k)), parity_of(ds)) == ds[k],
    decreases ds.len(),
{
    let dl = ds.drop_last();
    assert(all_page_sized(dl));
    lemma_parity_len(dl);
    if k == ds.len() - 1 {
        assert_seqs_equal!(ds.remove(k) == dl);
        // parity(ds) == parity(dl) ^ ds[k]; XOR with parity(dl) cancels it.
        assert forall|i: int| 0 <= i < PAGE_SIZE implies
            bytes_xor(parity_of(dl), bytes_xor(parity_of(dl), ds[k]))[i] == ds[k][i] by {
            let p = parity_of(dl)[i];
            let x = ds[k][i];
            assert(p ^ (p ^ x) == x) by (bit_vector);
        }
        assert_seqs_equal!(bytes_xor(parity_of(dl), bytes_xor(parity_of(dl), ds[k])) == ds[k]);
    } else {
        let rm = ds.remove(k);
        assert(rm.last() == ds.last());
        assert_seqs_equal!(rm.drop_last() == dl.remove(k));
        lemma_parity_reconstruction(dl, k);
        assert(all_page_sized(dl.remove(k))) by {
            assert(forall|i: int| 0 <= i < dl.remove(k).len()
                ==> #[trigger] dl.remove(k)[i].len() == PAGE_SIZE);
        }
        lemma_parity_len(dl.remove(k));
        // parity(rm) == parity(dl.remove(k)) ^ last, parity(ds) == parity(dl) ^ last:
        // the shared last payload cancels.
        lemma_bytes_xor_cancel(parity_of(dl.remove(k)), parity_of(dl), ds.last());
    }
}

} // verus!
