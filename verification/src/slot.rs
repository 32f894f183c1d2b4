//! Slots: the two flash regions whose contents a swap exchanges.
//!
//! A slot is an ordered sequence of pages tagged with its own slot index.
//! It computes the two commitments the recovery scan depends on: a Merkle
//! root over its pages' position-bound digests, and an XOR parity block over
//! its raw payloads.

use vstd::prelude::*;

use crate::hash::{sha256, sha256_of};
use crate::page::{digest_input, erased_bytes, Page, PageLocation, PageModel, PageState};
use crate::parity::{parity_of, zero_page};
use crate::FlashError;
use crate::PAGE_SIZE;

verus! {

/// Every page of the sequence is in the `Written` state.
pub open spec fn all_written(pages: Seq<PageModel>) -> bool {
    forall|i: int| 0 <= i < pages.len() ==> (#[trigger] pages[i]).state == PageState::Written
}

/// The index of the first page at or after `i` that is not `Written`, or the
/// length if every such page is.
pub open spec fn first_unwritten_from(pages: Seq<PageModel>, i: int) -> int
    decreases pages.len() - i,
{
    if i < 0 || i >= pages.len() {
        pages.len() as int
    } else if pages[i].state != PageState::Written {
        i
    } else {
        first_unwritten_from(pages, i + 1)
    }
}

/// The index of the first page that is not `Written`, or the length.
pub open spec fn first_unwritten(pages: Seq<PageModel>) -> int {
    first_unwritten_from(pages, 0)
}

/// What `first_unwritten_from` returns: the first non-`Written` index, with
/// everything before it `Written`.
pub proof fn lemma_first_unwritten_from(pages: Seq<PageModel>, i: int)
    requires
        0 <= i <= pages.len(),
    ensures
        ({
            let r = first_unwritten_from(pages, i);
            &&& i <= r <= pages.len()
            &&& r < pages.len() ==> pages[r].state != PageState::Written
            &&& forall|j: int| i <= j < r ==> (#[trigger] pages[j]).state == PageState::Written
        }),
    decreases pages.len() - i,
{
    if i < pages.len() && pages[i].state == PageState::Written {
        lemma_first_unwritten_from(pages, i + 1);
    }
}

/// A prefix of `Written` pages followed by a non-`Written` page (or the end)
/// pins `first_unwritten` down exactly.
pub proof fn lemma_first_unwritten_is(pages: Seq<PageModel>, e: int)
    requires
        0 <= e <= pages.len(),
        forall|j: int| 0 <= j < e ==> (#[trigger] pages[j]).state == PageState::Written,
        e < pages.len() ==> pages[e].state != PageState::Written,
    ensures
        first_unwritten(pages) == e,
{
    lemma_first_unwritten_from(pages, 0);
    let r = first_unwritten(pages);
    if r < e {
        assert(pages[r].state == PageState::Written);
    }
    if e < r {
        assert(pages[e].state == PageState::Written);
    }
}

/// The raw payloads of a sequence of pages, in order.
pub open spec fn slot_datas(pages: Seq<PageModel>) -> Seq<Seq<u8>> {
    pages.map_values(|p: PageModel| p.data)
}

/// The bytes the Merkle root of a slot is computed over: each page's
/// position-bound digest, pages visited in index order.  The order matters;
/// this is an ordered commitment, not a set digest.
pub open spec fn root_input(slot: u64, pages: Seq<PageModel>) -> Seq<u8>
    decreases pages.len(),
{
    if pages.len() == 0 {
        Seq::empty()
    } else {
        root_input(slot, pages.drop_last())
            + sha256_of(digest_input(slot, (pages.len() - 1) as u64, pages.last().data))
    }
}

/// One flash region: an ordered sequence of pages, tagged with its index.
/// Slots 0 and 1 are symmetric; their role during a swap is purely
/// positional.
#[derive(Debug)]
pub struct Slot {
    index: usize,
    data: Vec<Page>,
}

impl View for Slot {
    type V = Seq<PageModel>;

    closed spec fn view(&self) -> Seq<PageModel> {
        Seq::new(self.data@.len(), |i: int| self.data@[i]@)
    }
}

impl Slot {
    /// The slot's own index, bound into its pages' digests.
    pub closed spec fn slot_index(&self) -> usize {
        self.index
    }

    /// Every page buffer is exactly one page long.
    pub open spec fn wf(&self) -> bool {
        forall|i: int| 0 <= i < self@.len() ==> (#[trigger] self@[i]).data.len() == PAGE_SIZE
    }

    /// Create a slot of fresh pages, every one in the `PartiallyErased`
    /// state so that it must be erased before use.
    pub fn new(index: usize, pages: usize) -> (s: Slot)
        ensures
            s.slot_index() == index,
            s@.len() == pages,
            forall|i: int| 0 <= i < pages ==> (#[trigger] s@[i]).state == PageState::PartiallyErased
                && s@[i].data == erased_bytes(),
            s.wf(),
    {
        let mut data: Vec<Page> = Vec::new();
        let mut k: usize = 0;
        while k < pages
            invariant
                k <= pages,
                data@.len() == k,
                forall|i: int| 0 <= i < k ==> (#[trigger] data@[i])@.state == PageState::PartiallyErased
                    && data@[i]@.data == erased_bytes(),
            decreases pages - k,
        {
            data.push(Page::new());
            k = k + 1;
        }
        Slot { index, data }
    }

    /// The number of pages in the slot.
    pub fn len(&self) -> (n: usize)
        ensures
            n == self@.len(),
    {
        self.data.len()
    }

    /// The state tag of one page.
    pub fn page_state(&self, i: usize) -> (s: PageState)
        requires
            i < self@.len(),
        ensures
            s == self@[i as int].state,
    {
        self.data[i].state()
    }

    /// Normal read of one page; fails unless that page is `Written`.
    pub fn read_page(&self, i: usize, buffer: &mut Vec<u8>) -> (r: Result<(), FlashError>)
        requires
            self.wf(),
            i < self@.len(),
            old(buffer)@.len() == PAGE_SIZE,
        ensures
            match r {
                Ok(()) => self@[i as int].state == PageState::Written
                    && final(buffer)@ == self@[i as int].data,
                Err(e) => self@[i as int].state != PageState::Written
                    && final(buffer)@ == old(buffer)@
                    && e == (FlashError::InvalidState { state: self@[i as int].state }),
            },
    {
        self.data[i].read(buffer)
    }

    /// Raw read of one page, regardless of its state.
    pub fn read_whatever_page(&self, i: usize, buffer: &mut Vec<u8>) -> (r: Result<(), FlashError>)
        requires
            self.wf(),
            i < self@.len(),
            old(buffer)@.len() == PAGE_SIZE,
        ensures
            r is Ok,
            final(buffer)@ == self@[i as int].data,
    {
        self.data[i].read_whatever(buffer)
    }

    /// Erase one page.
    pub fn erase_page(&mut self, i: usize) -> (r: Result<(), FlashError>)
        requires
            old(self).wf(),
            i < old(self)@.len(),
        ensures
            r is Ok,
            final(self)@ == old(self)@.update(
                i as int,
                PageModel { state: PageState::Erased, data: erased_bytes() },
            ),
            final(self).slot_index() == old(self).slot_index(),
            final(self).wf(),
    {
        let r = self.data[i].erase();
        proof {
            assert(final(self)@ =~= old(self)@.update(
                i as int,
                PageModel { state: PageState::Erased, data: erased_bytes() },
            ));
        }
        r
    }

    /// Write one page; fails unless that page was erased first.
    pub fn write_page(&mut self, i: usize, buffer: &Vec<u8>) -> (r: Result<(), FlashError>)
        requires
            old(self).wf(),
            i < old(self)@.len(),
            buffer@.len() == PAGE_SIZE,
        ensures
            match r {
                Ok(()) => old(self)@[i as int].state == PageState::Erased
                    && final(self)@ == old(self)@.update(
                        i as int,
                        PageModel { state: PageState::Written, data: buffer@ },
                    ),
                Err(e) => old(self)@[i as int].state != PageState::Erased
                    && final(self)@ == old(self)@
                    && e == (FlashError::InvalidState { state: old(self)@[i as int].state }),
            },
            final(self).slot_index() == old(self).slot_index(),
            final(self).wf(),
    {
        let r = self.data[i].write(buffer);
        proof {
            if r is Ok {
                assert(final(self)@ =~= old(self)@.update(
                    i as int,
                    PageModel { state: PageState::Written, data: buffer@ },
                ));
            } else {
                assert(final(self)@ =~= old(self)@);
            }
        }
        r
    }

    /// Interrupt an erase of one page at its very beginning.
    pub fn partial_erase_page(&mut self, i: usize)
        requires
            old(self).wf(),
            i < old(self)@.len(),
        ensures
            final(self)@ == old(self)@.update(
                i as int,
                PageModel { state: PageState::PartiallyErased, data: old(self)@[i as int].data },
            ),
            final(self).slot_index() == old(self).slot_index(),
            final(self).wf(),
    {
        self.data[i].partial_erase();
        proof {
            assert(final(self)@ =~= old(self)@.update(
                i as int,
                PageModel { state: PageState::PartiallyErased, data: old(self)@[i as int].data },
            ));
        }
    }

    /// Interrupt a write of one page after the data landed but before the
    /// commit marker.
    pub fn partial_write_page(&mut self, i: usize, buffer: &Vec<u8>)
        requires
            old(self).wf(),
            i < old(self)@.len(),
            buffer@.len() == PAGE_SIZE,
        ensures
            final(self)@ == old(self)@.update(
                i as int,
                PageModel { state: PageState::PartiallyWritten, data: buffer@ },
            ),
            final(self).slot_index() == old(self).slot_index(),
            final(self).wf(),
    {
        self.data[i].partial_write(buffer);
        proof {
            assert(final(self)@ =~= old(self)@.update(
                i as int,
                PageModel { state: PageState::PartiallyWritten, data: buffer@ },
            ));
        }
    }

    /// The Merkle root of the slot: the streaming hash of every page's
    /// position-bound digest, in index order.  Fails, naming the first
    /// offender, if any page is not fully written.
    pub fn compute_root(&self) -> (r: Result<Vec<u8>, FlashError>)
        requires
            self.wf(),
        ensures
            match r {
                Ok(d) => all_written(self@)
                    && d@ == sha256_of(root_input(self.slot_index() as u64, self@))
                    && d@.len() == 32,
                Err(e) => !all_written(self@)
                    && e == (FlashError::InvalidState {
                        state: self@[first_unwritten(self@)].state,
                    }),
            },
    {
        let ghost slot = self.slot_index() as u64;
        let mut input: Vec<u8> = Vec::new();
        let n = self.data.len();
        let mut sec: usize = 0;
        proof {
            assert(self@.take(0) =~= Seq::<PageModel>::empty());
        }
        while sec < n
            invariant
                self.wf(),
                sec <= n,
                n == self@.len(),
                slot == self.slot_index() as u64,
                forall|j: int| 0 <= j < sec ==> (#[trigger] self@[j]).state == PageState::Written,
                input@ == root_input(slot, self@.take(sec as int)),
            decreases n - sec,
        {
            let loc = PageLocation { slot: self.index, index: sec };
            match self.data[sec].digest(&loc) {
                Ok(mut d) => {
                    input.append(&mut d);
                    sec = sec + 1;
                    proof {
                        assert(self@.take(sec as int).drop_last() =~= self@.take(sec - 1));
                        assert(self@.take(sec as int).last() == self@[sec - 1]);
                    }
                }
                Err(e) => {
                    proof {
                        lemma_first_unwritten_is(self@, sec as int);
                        assert(!all_written(self@)) by {
                            assert(self@[sec as int].state != PageState::Written);
                        }
                    }
                    return Err(e);
                }
            }
        }
        proof {
            assert(self@.take(n as int) =~= self@);
        }
        Ok(sha256(&input))
    }

    /// The parity block of the slot: the byte-wise XOR of every page's raw
    /// payload, every page contributing equally regardless of position or
    /// state.
    pub fn compute_parity(&self) -> (r: Vec<u8>)
        requires
            self.wf(),
        ensures
            r@ == parity_of(slot_datas(self@)),
            r@.len() == PAGE_SIZE,
    {
        let mut result = vec![0u8; PAGE_SIZE];
        proof {
            assert(result@ =~= zero_page());
            assert(slot_datas(self@).take(0) =~= Seq::<Seq<u8>>::empty());
        }
        let n = self.data.len();
        let mut sec: usize = 0;
        while sec < n
            invariant
                self.wf(),
                sec <= n,
                n == self@.len(),
                result@.len() == PAGE_SIZE,
                result@ == parity_of(slot_datas(self@).take(sec as int)),
            decreases n - sec,
        {
            proof {
                assert(self@[sec as int].data.len() == PAGE_SIZE);
            }
            self.data[sec].xor_into(&mut result);
            sec = sec + 1;
            proof {
                let ds = slot_datas(self@);
                assert(ds.take(sec as int).drop_last() =~= ds.take(sec - 1));
                assert(ds.take(sec as int).last() == self@[sec - 1].data);
            }
        }
        proof {
            assert(slot_datas(self@).take(n as int) =~= slot_datas(self@));
        }
        result
    }
}

} // verus!
