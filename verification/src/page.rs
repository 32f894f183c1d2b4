//! Simulated flash pages.
//!
//! A page is the smallest erasable/writable unit.  The simulation imposes the
//! strictest constraints of real flash: a page must be erased before it can
//! be written, a normal read succeeds only from the `Written` state, and an
//! interrupted erase or write leaves the page in a partial state that a
//! normal read refuses.

use vstd::prelude::*;

use crate::FlashError;
use crate::PAGE_SIZE;

verus! {

/// The state of a page.  A fresh page starts `PartiallyErased` so that a
/// real erase has to happen before it is used.
#[derive(Clone, Copy, Debug, PartialEq, Eq, Structural)]
pub enum PageState {
    Written,
    Erased,
    PartiallyWritten,
    PartiallyErased,
}

/// The mathematical content of a page: its state tag and its raw bytes.
#[verifier::ext_equal]
pub ghost struct PageModel {
    pub state: PageState,
    pub data: Seq<u8>,
}

/// A position in the flash: which slot, and which page within it.  A pure
/// identifier; it is bound into page digests so that identical payloads at
/// different positions hash differently.
#[derive(Clone, Copy, Debug, PartialEq, Eq, Structural)]
pub struct PageLocation {
    pub slot: usize,
    pub index: usize,
}

/// The byte value an erased page is filled with.
pub open spec fn erased_bytes() -> Seq<u8> {
    Seq::new(PAGE_SIZE as nat, |i: int| 0xFFu8)
}

/// A page model in the `Written` state with the given bytes.
pub open spec fn written(data: Seq<u8>) -> PageModel {
    PageModel { state: PageState::Written, data }
}

/// The ASCII decimal digits of `n`, most significant first.
pub open spec fn dec_digits(n: nat) -> Seq<u8>
    decreases n,
{
    if n < 10 {
        seq![(48 + n) as u8]
    } else {
        dec_digits(n / 10).push((48 + n % 10) as u8)
    }
}

/// Powers of ten, for bounding how many decimal digits a number takes.
pub open spec fn pow10(k: nat) -> nat
    decreases k,
{
    if k == 0 {
        1
    } else {
        10 * pow10((k - 1) as nat)
    }
}

/// A number below `pow10(k)` takes at most `k` decimal digits.
pub proof fn lemma_dec_digits_len(n: nat, k: nat)
    requires
        k >= 1,
        n < pow10(k),
    ensures
        dec_digits(n).len() <= k,
    decreases k,
{
    if n >= 10 {
        lemma_pow10_pos((k - 1) as nat);
        assert(pow10(k) == 10 * pow10((k - 1) as nat));
        assert(n / 10 < pow10((k - 1) as nat)) by (nonlinear_arith)
            requires
                n < 10 * pow10((k - 1) as nat),
                pow10((k - 1) as nat) >= 1,
        {}
        lemma_dec_digits_len(n / 10, (k - 1) as nat);
    }
}

/// Powers of ten are positive.
pub proof fn lemma_pow10_pos(k: nat)
    ensures
        pow10(k) >= 1,
    decreases k,
{
    if k > 0 {
        lemma_pow10_pos((k - 1) as nat);
    }
}

/// Ten to the thirteenth, written out.
pub proof fn lemma_pow10_13()
    ensures
        pow10(13) == 10000000000000,
{
    reveal_with_fuel(pow10, 14);
}

/// The position-derived pattern fits in one page for both slots of a swap
/// and any page index below ten to the thirteenth: the fixed text takes 18
/// bytes, the slot digit one, and the page index at most 13 more — at most
/// `PAGE_SIZE` in all.
pub proof fn lemma_small_pattern_fits(slot: nat, index: nat)
    requires
        slot <= 1,
        index < 10000000000000,
    ensures
        pattern_fits(slot, index),
{
    lemma_pow10_13();
    lemma_dec_digits_len(index, 13);
    assert(dec_digits(slot).len() == 1);
    assert(slot_tag().len() == 5);
    assert(page_tag().len() == 7);
    assert(data_tag().len() == 6);
}

/// The bytes of `"Slot "`.
pub open spec fn slot_tag() -> Seq<u8> {
    seq![83u8, 108u8, 111u8, 116u8, 32u8]
}

/// The bytes of `", page "`.
pub open spec fn page_tag() -> Seq<u8> {
    seq![44u8, 32u8, 112u8, 97u8, 103u8, 101u8, 32u8]
}

/// The bytes of `", data"`.
pub open spec fn data_tag() -> Seq<u8> {
    seq![44u8, 32u8, 100u8, 97u8, 116u8, 97u8]
}

/// The human-readable part of the expected content of the page at a given
/// position: `"Slot <slot>, page <index>, data"` in ASCII.
pub open spec fn pattern_prefix(slot: nat, index: nat) -> Seq<u8> {
    slot_tag() + dec_digits(slot) + page_tag() + dec_digits(index) + data_tag()
}

/// Whether the position-derived pattern fits in one page.
pub open spec fn pattern_fits(slot: nat, index: nat) -> bool {
    pattern_prefix(slot, index).len() <= PAGE_SIZE
}

/// The expected content of the page at a given position: the readable
/// pattern, padded with the erased sentinel to exactly one page.
pub open spec fn pattern(slot: nat, index: nat) -> Seq<u8> {
    pattern_prefix(slot, index)
        + Seq::new((PAGE_SIZE - pattern_prefix(slot, index).len()) as nat, |i: int| 0xFFu8)
}

/// Append the ASCII decimal digits of `n` to `out`.
fn push_dec(out: &mut Vec<u8>, n: usize)
    ensures
        final(out)@ == old(out)@ + dec_digits(n as nat),
    decreases n,
{
    if n < 10 {
        out.push(48 + n as u8);
        assert(out@ =~= old(out)@ + dec_digits(n as nat));
    } else {
        push_dec(out, n / 10);
        out.push(48 + (n % 10) as u8);
        assert(out@ =~= old(out)@ + dec_digits(n as nat));
    }
}

/// The eight bytes of `n`, least significant first.
pub open spec fn le_bytes(n: u64) -> Seq<u8> {
    seq![
        (n & 0xFF) as u8,
        ((n >> 8) & 0xFF) as u8,
        ((n >> 16) & 0xFF) as u8,
        ((n >> 24) & 0xFF) as u8,
        ((n >> 32) & 0xFF) as u8,
        ((n >> 40) & 0xFF) as u8,
        ((n >> 48) & 0xFF) as u8,
        ((n >> 56) & 0xFF) as u8,
    ]
}

/// The bytes a page digest is computed over: the page's position, fixed-width
/// little-endian encoded, concatenated before its payload.  Binding the
/// position in means two bit-identical pages at different positions never
/// feed the hash the same input.
pub open spec fn digest_input(slot: u64, index: u64, data: Seq<u8>) -> Seq<u8> {
    le_bytes(slot) + le_bytes(index) + data
}

/// The little-endian encoding is injective.
pub proof fn lemma_le_bytes_injective(a: u64, b: u64)
    requires
        le_bytes(a) == le_bytes(b),
    ensures
        a == b,
{
    assert((a & 0xFF) as u8 == (b & 0xFF) as u8) by {
        assert(le_bytes(a)[0] == le_bytes(b)[0]);
    }
    assert(((a >> 8) & 0xFF) as u8 == ((b >> 8) & 0xFF) as u8) by {
        assert(le_bytes(a)[1] == le_bytes(b)[1]);
    }
    assert(((a >> 16) & 0xFF) as u8 == ((b >> 16) & 0xFF) as u8) by {
        assert(le_bytes(a)[2] == le_bytes(b)[2]);
    }
    assert(((a >> 24) & 0xFF) as u8 == ((b >> 24) & 0xFF) as u8) by {
        assert(le_bytes(a)[3] == le_bytes(b)[3]);
    }
    assert(((a >> 32) & 0xFF) as u8 == ((b >> 32) & 0xFF) as u8) by {
        assert(le_bytes(a)[4] == le_bytes(b)[4]);
    }
    assert(((a >> 40) & 0xFF) as u8 == ((b >> 40) & 0xFF) as u8) by {
        assert(le_bytes(a)[5] == le_bytes(b)[5]);
    }
    assert(((a >> 48) & 0xFF) as u8 == ((b >> 48) & 0xFF) as u8) by {
        assert(le_bytes(a)[6] == le_bytes(b)[6]);
    }
    assert(((a >> 56) & 0xFF) as u8 == ((b >> 56) & 0xFF) as u8) by {
        assert(le_bytes(a)[7] == le_bytes(b)[7]);
    }
    assert(a == b) by (bit_vector)
        requires
            (a & 0xFF) as u8 == (b & 0xFF) as u8,
            ((a >> 8) & 0xFF) as u8 == ((b >> 8) & 0xFF) as u8,
            ((a >> 16) & 0xFF) as u8 == ((b >> 16) & 0xFF) as u8,
            ((a >> 24) & 0xFF) as u8 == ((b >> 24) & 0xFF) as u8,
            ((a >> 32) & 0xFF) as u8 == ((b >> 32) & 0xFF) as u8,
            ((a >> 40) & 0xFF) as u8 == ((b >> 40) & 0xFF) as u8,
            ((a >> 48) & 0xFF) as u8 == ((b >> 48) & 0xFF) as u8,
            ((a >> 56) & 0xFF) as u8 == ((b >> 56) & 0xFF) as u8,
    {}
}

/// Digest binding: distinct positions always produce distinct digest inputs,
/// whatever the payload.  That the digests themselves then differ rests on
/// the hash being collision resistant, which is outside what this crate can
/// state of it.
pub proof fn lemma_digest_binding(s1: u64, i1: u64, s2: u64, i2: u64, data: Seq<u8>)
    requires
        !(s1 == s2 && i1 == i2),
    ensures
        digest_input(s1, i1, data) != digest_input(s2, i2, data),
{
    if digest_input(s1, i1, data) == digest_input(s2, i2, data) {
        assert forall|i: int| 0 <= i < 8 implies le_bytes(s1)[i] == le_bytes(s2)[i] by {
            assert(digest_input(s1, i1, data)[i] == le_bytes(s1)[i]);
            assert(digest_input(s2, i2, data)[i] == le_bytes(s2)[i]);
        }
        assert(le_bytes(s1) =~= le_bytes(s2));
        lemma_le_bytes_injective(s1, s2);
        assert forall|i: int| 0 <= i < 8 implies le_bytes(i1)[i] == le_bytes(i2)[i] by {
            assert(digest_input(s1, i1, data)[8 + i] == le_bytes(i1)[i]);
            assert(digest_input(s2, i2, data)[8 + i] == le_bytes(i2)[i]);
        }
        assert(le_bytes(i1) =~= le_bytes(i2));
        lemma_le_bytes_injective(i1, i2);
        assert(false);
    }
}

/// Append the eight little-endian bytes of `n` to `out`.
fn push_le(out: &mut Vec<u8>, n: u64)
    ensures
        final(out)@ == old(out)@ + le_bytes(n),
{
    out.push((n & 0xFF) as u8);
    out.push(((n >> 8) & 0xFF) as u8);
    out.push(((n >> 16) & 0xFF) as u8);
    out.push(((n >> 24) & 0xFF) as u8);
    out.push(((n >> 32) & 0xFF) as u8);
    out.push(((n >> 40) & 0xFF) as u8);
    out.push(((n >> 48) & 0xFF) as u8);
    out.push(((n >> 56) & 0xFF) as u8);
    proof {
        assert(out@ =~= old(out)@ + le_bytes(n));
    }
}

/// One flash page: a fixed-size byte buffer plus a state tag.
#[derive(Debug)]
pub struct Page {
    payload: Vec<u8>,
    pstate: PageState,
}

impl View for Page {
    type V = PageModel;

    closed spec fn view(&self) -> PageModel {
        PageModel { state: self.pstate, data: self.payload@ }
    }
}

impl Page {
    /// The buffer of a page always holds exactly one page worth of bytes.
    pub open spec fn wf(&self) -> bool {
        self@.data.len() == PAGE_SIZE
    }

    /// Construct a new, empty page.  Its bytes look erased, but it is tagged
    /// `PartiallyErased` to force an actual erase before first use.
    pub fn new() -> (p: Page)
        ensures
            p.wf(),
            p@.state == PageState::PartiallyErased,
            p@.data == erased_bytes(),
    {
        let buf = vec![0xFFu8; PAGE_SIZE];
        proof {
            assert(buf@ =~= erased_bytes());
        }
        Page { payload: buf, pstate: PageState::PartiallyErased }
    }

    /// Fill a page buffer with the expected content for a position: the
    /// readable pattern `"Slot <slot>, page <index>, data"` padded with the
    /// erased sentinel.
    pub fn fill(buf: &mut Vec<u8>, slot: usize, index: usize)
        requires
            old(buf)@.len() == PAGE_SIZE,
            pattern_fits(slot as nat, index as nat),
        ensures
            final(buf)@ == pattern(slot as nat, index as nat),
            final(buf)@.len() == PAGE_SIZE,
    {
        buf.clear();
        // "Slot "
        buf.push(83);
        buf.push(108);
        buf.push(111);
        buf.push(116);
        buf.push(32);
        push_dec(buf, slot);
        // ", page "
        buf.push(44);
        buf.push(32);
        buf.push(112);
        buf.push(97);
        buf.push(103);
        buf.push(101);
        buf.push(32);
        push_dec(buf, index);
        // ", data"
        buf.push(44);
        buf.push(32);
        buf.push(100);
        buf.push(97);
        buf.push(116);
        buf.push(97);
        proof {
            assert(buf@ =~= pattern_prefix(slot as nat, index as nat));
        }
        let ghost prefix = pattern_prefix(slot as nat, index as nat);
        while buf.len() < PAGE_SIZE
            invariant
                prefix.len() <= buf@.len() <= PAGE_SIZE,
                buf@ == prefix + Seq::new((buf@.len() - prefix.len()) as nat, |i: int| 0xFFu8),
            decreases PAGE_SIZE - buf@.len(),
        {
            buf.push(0xFF);
            proof {
                assert(buf@ =~= prefix + Seq::new((buf@.len() - prefix.len()) as nat, |i: int| 0xFFu8));
            }
        }
        proof {
            assert(buf@ =~= pattern(slot as nat, index as nat));
        }
    }

    /// Check a buffer against the expected content for a position.
    pub fn check(buf: &Vec<u8>, slot: usize, index: usize) -> (r: Result<(), FlashError>)
        requires
            buf@.len() == PAGE_SIZE,
            pattern_fits(slot as nat, index as nat),
        ensures
            match r {
                Ok(()) => buf@ == pattern(slot as nat, index as nat),
                Err(e) => buf@ != pattern(slot as nat, index as nat)
                    && e == FlashError::VerificationFailure,
            },
    {
        let mut tmp = vec![0xFFu8; PAGE_SIZE];
        Self::fill(&mut tmp, slot, index);
        if buf == &tmp {
            proof {
                assert(buf@ =~= tmp@);
            }
            Ok(())
        } else {
            proof {
                if buf@ == tmp@ {
                    assert(buf@ =~= tmp@);
                    assert(false);
                }
            }
            Err(FlashError::VerificationFailure)
        }
    }

    /// Normal read.  Succeeds only from the `Written` state; any other state
    /// is reported, never silently defaulted.
    pub fn read(&self, buffer: &mut Vec<u8>) -> (r: Result<(), FlashError>)
        requires
            self.wf(),
            old(buffer)@.len() == PAGE_SIZE,
        ensures
            match r {
                Ok(()) => self@.state == PageState::Written && final(buffer)@ == self@.data,
                Err(e) => self@.state != PageState::Written && final(buffer)@ == old(buffer)@
                    && e == (FlashError::InvalidState { state: self@.state }),
            },
    {
        if self.pstate == PageState::Written {
            buffer.clear();
            buffer.extend_from_slice(self.payload.as_slice());
            Ok(())
        } else {
            Err(FlashError::InvalidState { state: self.pstate })
        }
    }

    /// Raw read, regardless of state.  Always succeeds; callers must treat
    /// the result as a heuristic only, never as ground for a correctness
    /// decision, since a real interrupted write need not read back stably.
    pub fn read_whatever(&self, buffer: &mut Vec<u8>) -> (r: Result<(), FlashError>)
        requires
            self.wf(),
            old(buffer)@.len() == PAGE_SIZE,
        ensures
            r is Ok,
            final(buffer)@ == self@.data,
    {
        buffer.clear();
        buffer.extend_from_slice(self.payload.as_slice());
        Ok(())
    }

    /// The page's current state tag.
    pub fn state(&self) -> (s: PageState)
        ensures
            s == self@.state,
    {
        self.pstate
    }

    /// The position-bound digest of the page: the SHA-256 hash of the
    /// location's fixed-width encoding followed by the payload.  Like a
    /// normal read, it is only meaningful for a fully written page.
    pub fn digest(&self, loc: &PageLocation) -> (r: Result<Vec<u8>, FlashError>)
        requires
            self.wf(),
        ensures
            match r {
                Ok(d) => self@.state == PageState::Written
                    && d@ == crate::hash::sha256_of(
                        digest_input(loc.slot as u64, loc.index as u64, self@.data))
                    && d@.len() == 32,
                Err(e) => self@.state != PageState::Written
                    && e == (FlashError::InvalidState { state: self@.state }),
            },
    {
        if self.pstate == PageState::Written {
            let mut input: Vec<u8> = Vec::new();
            push_le(&mut input, loc.slot as u64);
            push_le(&mut input, loc.index as u64);
            input.extend_from_slice(self.payload.as_slice());
            proof {
                assert(input@ =~= digest_input(loc.slot as u64, loc.index as u64, self@.data));
            }
            Ok(crate::hash::sha256(&input))
        } else {
            Err(FlashError::InvalidState { state: self.pstate })
        }
    }

    /// Fold this page's raw bytes into an accumulator, byte-wise XOR.  Used
    /// to build the parity block; reads the payload regardless of state.
    pub fn xor_into(&self, acc: &mut Vec<u8>)
        requires
            self.wf(),
            old(acc)@.len() == PAGE_SIZE,
        ensures
            final(acc)@ == crate::parity::bytes_xor(old(acc)@, self@.data),
    {
        let mut i: usize = 0;
        while i < PAGE_SIZE
            invariant
                i <= PAGE_SIZE,
                self.wf(),
                acc@.len() == PAGE_SIZE,
                forall|j: int| 0 <= j < i ==> acc@[j] == (old(acc)@[j] ^ self@.data[j]),
                forall|j: int| i <= j < PAGE_SIZE ==> acc@[j] == old(acc)@[j],
            decreases PAGE_SIZE - i,
        {
            let b = acc[i] ^ self.payload[i];
            acc[i] = b;
            i = i + 1;
        }
        proof {
            assert(acc@ =~= crate::parity::bytes_xor(old(acc)@, self@.data));
        }
    }

    /// Erase the page.  Unconditional: always succeeds, resets every byte to
    /// the erased sentinel and the state to `Erased`.
    pub fn erase(&mut self) -> (r: Result<(), FlashError>)
        ensures
            r is Ok,
            final(self)@.state == PageState::Erased,
            final(self)@.data == erased_bytes(),
            final(self).wf(),
    {
        self.pstate = PageState::Erased;
        let buf = vec![0xFFu8; PAGE_SIZE];
        proof {
            assert(buf@ =~= erased_bytes());
        }
        self.payload = buf;
        Ok(())
    }

    /// An erase interrupted at its very beginning: the bytes are untouched,
    /// only the state records that the operation did not complete.
    pub fn partial_erase(&mut self)
        ensures
            final(self)@.state == PageState::PartiallyErased,
            final(self)@.data == old(self)@.data,
    {
        self.pstate = PageState::PartiallyErased;
    }

    /// A write whose commit marker was lost: the full target buffer lands in
    /// the page (a deliberate simplification of real flash), but the state
    /// records that the operation did not complete.
    pub fn partial_write(&mut self, buffer: &Vec<u8>)
        requires
            buffer@.len() == PAGE_SIZE,
        ensures
            final(self)@.state == PageState::PartiallyWritten,
            final(self)@.data == buffer@,
            final(self).wf(),
    {
        self.payload = buffer.clone();
        self.pstate = PageState::PartiallyWritten;
    }

    /// Write new contents to the page.  Fails, reporting the offending
    /// state, unless the page was erased first.
    pub fn write(&mut self, buffer: &Vec<u8>) -> (r: Result<(), FlashError>)
        requires
            buffer@.len() == PAGE_SIZE,
        ensures
            match r {
                Ok(()) => old(self)@.state == PageState::Erased
                    && final(self)@.state == PageState::Written
                    && final(self)@.data == buffer@
                    && final(self).wf(),
                Err(e) => old(self)@.state != PageState::Erased
                    && *final(self) == *old(self)
                    && e == (FlashError::InvalidState { state: old(self)@.state }),
            },
    {
        if self.pstate == PageState::Erased {
            self.payload = buffer.clone();
            self.pstate = PageState::Written;
            Ok(())
        } else {
            Err(FlashError::InvalidState { state: self.pstate })
        }
    }
}

} // verus!
