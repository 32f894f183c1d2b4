//! The swap coordinator: exchanges the two slots' contents page by page.
//!
//! Each page exchange decomposes into exactly four ordered sub-steps — erase
//! slot 0, write slot 0, erase slot 1, write slot 1 — and each sub-step is a
//! legitimate interruption point.  An optional stop threshold simulates the
//! interruption: the sub-step it lands on runs as its partial variant, the
//! resume location is recorded, and the swap halts.  The root and parity
//! commitments are computed once, at construction, against the pre-swap
//! state.

use vstd::prelude::*;

use crate::hash::sha256_of;
use crate::page::{
    lemma_small_pattern_fits, pattern, written, Page, PageLocation, PageModel, PageState,
};
use crate::parity::parity_of;
use crate::slot::{
    all_written, first_unwritten, lemma_first_unwritten_is, root_input, slot_datas, Slot,
};
use crate::FlashError;
use crate::PAGE_SIZE;

verus! {

/// How a swap attempt ended: it either ran all its sub-steps, or the stop
/// threshold interrupted it.
#[derive(Clone, Copy, Debug, PartialEq, Eq, Structural)]
pub enum SwapResult {
    Finished,
    Interrupted,
}

/// The pages of `orig` with the first `e` exchanged: pages below `e` hold
/// the other slot's payloads, freshly written; pages from `e` on are
/// untouched.
pub open spec fn exchanged_upto(orig: Seq<PageModel>, other: Seq<PageModel>, e: int) -> Seq<
    PageModel,
> {
    Seq::new(orig.len(), |i: int| if i < e { written(other[i].data) } else { orig[i] })
}

/// The 1-based number of the sub-step that the stop threshold turns into a
/// partial operation, if it strikes within the swap's `4 * n` sub-steps.
/// The step counter starts at `step0` and each sub-step first increments it,
/// then halts if it exceeds the threshold.
pub open spec fn halt_substep(stop: Option<usize>, step0: int, n: int) -> Option<int> {
    match stop {
        Option::None => Option::None,
        Option::Some(t) => {
            let h = if (t as int) < step0 + 1 {
                1
            } else {
                (t as int) - step0 + 1
            };
            if h <= 4 * n {
                Option::Some(h)
            } else {
                Option::None
            }
        },
    }
}

/// Which page the halting sub-step belongs to.
pub open spec fn halt_page(h: int) -> int {
    (h - 1) / 4
}

/// Which of the four sub-steps of its page the halting sub-step is:
/// 0 erases slot 0, 1 writes slot 0, 2 erases slot 1, 3 writes slot 1.
pub open spec fn halt_kind(h: int) -> int {
    (h - 1) % 4
}

/// Which slot an interruption at sub-step kind `k` is recorded against.
pub open spec fn resume_slot(k: int) -> usize {
    if k < 2 {
        0
    } else {
        1
    }
}

/// Slot 0's page at the interrupted index, after an interruption at sub-step
/// kind `k`.  `a` and `b` are the pre-swap pages of slot 0 and slot 1 at
/// that index.
pub open spec fn interrupted_page0(a: PageModel, b: PageModel, k: int) -> PageModel {
    if k == 0 {
        PageModel { state: PageState::PartiallyErased, data: a.data }
    } else if k == 1 {
        PageModel { state: PageState::PartiallyWritten, data: b.data }
    } else {
        written(b.data)
    }
}

/// Slot 1's page at the interrupted index, after an interruption at sub-step
/// kind `k`.
pub open spec fn interrupted_page1(a: PageModel, b: PageModel, k: int) -> PageModel {
    if k <= 1 {
        b
    } else if k == 2 {
        PageModel { state: PageState::PartiallyErased, data: b.data }
    } else {
        PageModel { state: PageState::PartiallyWritten, data: a.data }
    }
}

/// The first page index at which either slot's page is not `Written`, or the
/// length if every pair is swappable.
pub open spec fn first_unswappable_from(a: Seq<PageModel>, b: Seq<PageModel>, i: int) -> int
    decreases a.len() - i,
{
    if i < 0 || i >= a.len() {
        a.len() as int
    } else if a[i].state != PageState::Written || b[i].state != PageState::Written {
        i
    } else {
        first_unswappable_from(a, b, i + 1)
    }
}

/// The first page index at which a swap's snapshot reads fail.
pub open spec fn first_unswappable(a: Seq<PageModel>, b: Seq<PageModel>) -> int {
    first_unswappable_from(a, b, 0)
}

/// The error a swap reports at its first unswappable page: slot 0's state is
/// read, and reported, first.
pub open spec fn pair_error(a: Seq<PageModel>, b: Seq<PageModel>, e: int) -> FlashError {
    if a[e].state != PageState::Written {
        FlashError::InvalidState { state: a[e].state }
    } else {
        FlashError::InvalidState { state: b[e].state }
    }
}

/// A prefix of swappable pairs followed by an unswappable pair (or the end)
/// pins `first_unswappable` down exactly.
pub proof fn lemma_first_unswappable_is(a: Seq<PageModel>, b: Seq<PageModel>, e: int)
    requires
        a.len() == b.len(),
        0 <= e <= a.len(),
        forall|j: int| 0 <= j < e ==> (#[trigger] a[j]).state == PageState::Written
            && b[j].state == PageState::Written,
        e < a.len() ==> (a[e].state != PageState::Written || b[e].state != PageState::Written),
    ensures
        first_unswappable(a, b) == e,
    decreases a.len(),
{
    lemma_first_unswappable_from_props(a, b, 0);
    let r = first_unswappable(a, b);
    if r < e {
        assert(a[r].state == PageState::Written && b[r].state == PageState::Written);
    }
    if e < r {
        assert(a[e].state == PageState::Written && b[e].state == PageState::Written);
    }
}

/// What `first_unswappable_from` returns: the first unswappable index at or
/// after `i`, with every pair before it swappable.
pub proof fn lemma_first_unswappable_from_props(a: Seq<PageModel>, b: Seq<PageModel>, i: int)
    requires
        a.len() == b.len(),
        0 <= i <= a.len(),
    ensures
        ({
            let r = first_unswappable_from(a, b, i);
            &&& i <= r <= a.len()
            &&& r < a.len() ==> (a[r].state != PageState::Written
                || b[r].state != PageState::Written)
            &&& forall|j: int| i <= j < r ==> (#[trigger] a[j]).state == PageState::Written
                && b[j].state == PageState::Written
        }),
    decreases a.len() - i,
{
    if i < a.len() && a[i].state == PageState::Written && b[i].state == PageState::Written {
        lemma_first_unswappable_from_props(a, b, i + 1);
    }
}

/// The verifier's condition after a completed swap: slot 0 holds slot 1's
/// position-derived patterns and slot 1 holds slot 0's — the slots have
/// fully exchanged identities.
pub open spec fn fully_exchanged_patterns(m0: Seq<PageModel>, m1: Seq<PageModel>) -> bool {
    forall|i: int| 0 <= i < m0.len() ==> (#[trigger] m0[i]) == written(pattern(1, i as nat))
        && (#[trigger] m1[i]) == written(pattern(0, i as nat))
}

/// The swap coordinator.  Owns both slots for the duration of one swap
/// attempt, plus the commitments computed at construction: `root` over slot
/// 1's initial content, `parity` over slot 0's initial raw payloads.  The
/// `step` counter increases monotonically; the optional `stop` threshold is
/// simulation control; `resume` is set only when execution halts early.
#[derive(Debug)]
pub struct Status {
    slot0: Slot,
    slot1: Slot,
    root: Vec<u8>,
    parity: Vec<u8>,
    step: usize,
    stop: Option<usize>,
    resume: Option<PageLocation>,
}

impl Status {
    /// Slot 0, as a mathematical value.
    pub closed spec fn s0(&self) -> Slot {
        self.slot0
    }

    /// Slot 1, as a mathematical value.
    pub closed spec fn s1(&self) -> Slot {
        self.slot1
    }

    /// The root commitment's bytes.
    pub closed spec fn spec_root(&self) -> Seq<u8> {
        self.root@
    }

    /// The parity block's bytes.
    pub closed spec fn spec_parity(&self) -> Seq<u8> {
        self.parity@
    }

    /// The step counter.
    pub closed spec fn spec_step(&self) -> usize {
        self.step
    }

    /// The stop threshold.
    pub closed spec fn spec_stop(&self) -> Option<usize> {
        self.stop
    }

    /// The recorded resume location, if the swap halted early.
    pub closed spec fn spec_resume(&self) -> Option<PageLocation> {
        self.resume
    }

    /// Both slots are well formed, carry their positional indices, and have
    /// the same number of pages.
    pub open spec fn wf(&self) -> bool {
        &&& self.s0().wf()
        &&& self.s1().wf()
        &&& self.s0().slot_index() == 0
        &&& self.s1().slot_index() == 1
        &&& self.s0()@.len() == self.s1()@.len()
    }

    /// Build a coordinator from two fully written slots of equal size and
    /// compute the two commitments against their pre-swap contents.  Slots
    /// of unequal size, or with any page not fully written, are rejected
    /// eagerly, naming the first offending page's state (slot 0 scanned
    /// first).
    pub fn new(slot0: Slot, slot1: Slot) -> (r: Result<Status, FlashError>)
        requires
            slot0.wf(),
            slot1.wf(),
            slot0.slot_index() == 0,
            slot1.slot_index() == 1,
        ensures
            match r {
                Ok(st) => slot0@.len() == slot1@.len() && all_written(slot0@) && all_written(
                    slot1@,
                ) && st.wf() && st.s0()@ == slot0@ && st.s1()@ == slot1@ && st.spec_root()
                    == sha256_of(root_input(1, slot1@)) && st.spec_parity() == parity_of(
                    slot_datas(slot0@),
                ) && st.spec_step() == 0 && st.spec_stop() is None && st.spec_resume() is None,
                Err(e) => !(slot0@.len() == slot1@.len() && all_written(slot0@) && all_written(
                    slot1@,
                )) && e == new_error(slot0@, slot1@),
            },
    {
        if slot0.len() != slot1.len() {
            return Err(FlashError::SizeMismatch);
        }
        let n = slot0.len();
        let mut i: usize = 0;
        while i < n
            invariant
                i <= n,
                n == slot0@.len(),
                slot0@.len() == slot1@.len(),
                forall|j: int| 0 <= j < i ==> (#[trigger] slot0@[j]).state == PageState::Written,
            decreases n - i,
        {
            let s = slot0.page_state(i);
            if s != PageState::Written {
                proof {
                    lemma_first_unwritten_is(slot0@, i as int);
                    assert(!all_written(slot0@)) by {
                        assert(slot0@[i as int].state != PageState::Written);
                    }
                }
                return Err(FlashError::InvalidState { state: s });
            }
            i = i + 1;
        }
        let root = match slot1.compute_root() {
            Ok(d) => d,
            Err(e) => {
                return Err(e);
            },
        };
        let parity = slot0.compute_parity();
        Ok(Status { slot0, slot1, root, parity, step: 0, stop: None, resume: None })
    }

    /// Set or clear the stop threshold: the swap halts in the first sub-step
    /// that pushes the step counter beyond it.
    pub fn set_stop(&mut self, stop: Option<usize>)
        ensures
            final(self).spec_stop() == stop,
            final(self).s0() == old(self).s0(),
            final(self).s1() == old(self).s1(),
            final(self).spec_root() == old(self).spec_root(),
            final(self).spec_parity() == old(self).spec_parity(),
            final(self).spec_step() == old(self).spec_step(),
            final(self).spec_resume() == old(self).spec_resume(),
    {
        self.stop = stop;
    }

    /// The step counter: how many sub-steps have run.
    pub fn step(&self) -> (s: usize)
        ensures
            s == self.spec_step(),
    {
        self.step
    }

    /// The recorded resume location, if the last swap attempt was halted.
    pub fn resume(&self) -> (r: Option<PageLocation>)
        ensures
            r == self.spec_resume(),
    {
        self.resume
    }

    /// The root commitment, computed at construction over slot 1's initial
    /// content.
    pub fn root(&self) -> (r: &Vec<u8>)
        ensures
            r@ == self.spec_root(),
    {
        &self.root
    }

    /// The parity block, computed at construction over slot 0's initial raw
    /// payloads.
    pub fn parity(&self) -> (r: &Vec<u8>)
        ensures
            r@ == self.spec_parity(),
    {
        &self.parity
    }

    /// Borrow one of the two slots.
    pub fn slot(&self, i: usize) -> (s: &Slot)
        requires
            i < 2,
        ensures
            *s == if i == 0 {
                self.s0()
            } else {
                self.s1()
            },
    {
        if i == 0 {
            &self.slot0
        } else {
            &self.slot1
        }
    }

    /// Whether the step counter has passed the stop threshold.
    fn is_stop(&self) -> (r: bool)
        ensures
            r == (self.spec_stop() is Some && self.spec_step() > self.spec_stop()->0),
    {
        match self.stop {
            Some(t) => self.step > t,
            None => false,
        }
    }

    /// Exchange the two slots' contents, page by page, in index order; four
    /// ordered sub-steps per page, each incrementing the step counter and
    /// each honouring the stop threshold.  The sub-step the threshold lands
    /// on runs as its partial variant, the resume location is recorded, and
    /// everything after it is left untouched.  A page that is not fully
    /// written when its pair is snapshotted stops the swap with an error
    /// naming its state instead.
    pub fn swap(&mut self) -> (r: Result<SwapResult, FlashError>)
        requires
            old(self).wf(),
            old(self).spec_step() + 4 * old(self).s0()@.len() <= usize::MAX,
        ensures
            final(self).wf(),
            final(self).spec_root() == old(self).spec_root(),
            final(self).spec_parity() == old(self).spec_parity(),
            final(self).spec_stop() == old(self).spec_stop(),
            ({
                let a = old(self).s0()@;
                let b = old(self).s1()@;
                let n = a.len() as int;
                let e = first_unswappable(a, b);
                let hopt = halt_substep(old(self).spec_stop(), old(self).spec_step() as int, n);
                if hopt is Some && halt_page(hopt->0) < e {
                    let h = hopt->0;
                    let sec = halt_page(h);
                    let k = halt_kind(h);
                    &&& r == Ok::<SwapResult, FlashError>(SwapResult::Interrupted)
                    &&& final(self).s0()@ == exchanged_upto(a, b, sec).update(
                        sec,
                        interrupted_page0(a[sec], b[sec], k),
                    )
                    &&& final(self).s1()@ == exchanged_upto(b, a, sec).update(
                        sec,
                        interrupted_page1(a[sec], b[sec], k),
                    )
                    &&& final(self).spec_step() == old(self).spec_step() + h
                    &&& final(self).spec_resume() == Some(
                        PageLocation { slot: resume_slot(k), index: sec as usize },
                    )
                } else if e < n {
                    &&& r == Err::<SwapResult, FlashError>(pair_error(a, b, e))
                    &&& final(self).s0()@ == exchanged_upto(a, b, e)
                    &&& final(self).s1()@ == exchanged_upto(b, a, e)
                    &&& final(self).spec_step() == old(self).spec_step() + 4 * e
                    &&& final(self).spec_resume() == old(self).spec_resume()
                } else {
                    &&& r == Ok::<SwapResult, FlashError>(SwapResult::Finished)
                    &&& final(self).s0()@ == exchanged_upto(a, b, n)
                    &&& final(self).s1()@ == exchanged_upto(b, a, n)
                    &&& final(self).spec_step() == old(self).spec_step() + 4 * n
                    &&& final(self).spec_resume() == old(self).spec_resume()
                }
            }),
    {
        let ghost a = old(self).s0()@;
        let ghost b = old(self).s1()@;
        let ghost step0 = old(self).spec_step() as int;
        let ghost stop_g = old(self).spec_stop();
        let ghost resume0 = old(self).spec_resume();
        let ghost n_i = a.len() as int;
        let ghost hopt = halt_substep(stop_g, step0, n_i);
        let n = self.slot0.len();
        let mut abuf = vec![0u8; PAGE_SIZE];
        let mut bbuf = vec![0u8; PAGE_SIZE];
        let mut sec: usize = 0;
        proof {
            assert(exchanged_upto(a, b, 0) =~= a);
            assert(exchanged_upto(b, a, 0) =~= b);
        }
        while sec < n
            invariant
                self.wf(),
                sec <= n,
                n == a.len(),
                a.len() == b.len(),
                n_i == a.len() as int,
                a == old(self).s0()@,
                b == old(self).s1()@,
                step0 == old(self).spec_step() as int,
                stop_g == old(self).spec_stop(),
                resume0 == old(self).spec_resume(),
                hopt == halt_substep(stop_g, step0, n_i),
                step0 + 4 * n_i <= usize::MAX,
                self.s0()@ == exchanged_upto(a, b, sec as int),
                self.s1()@ == exchanged_upto(b, a, sec as int),
                self.spec_step() == step0 + 4 * sec,
                self.spec_stop() == stop_g,
                self.spec_resume() == resume0,
                self.spec_root() == old(self).spec_root(),
                self.spec_parity() == old(self).spec_parity(),
                forall|j: int| 0 <= j < sec ==> (#[trigger] a[j]).state == PageState::Written
                    && b[j].state == PageState::Written,
                hopt is Some ==> hopt->0 >= 4 * sec + 1,
                abuf@.len() == PAGE_SIZE,
                bbuf@.len() == PAGE_SIZE,
            decreases n - sec,
        {
            // Snapshot both pages through the normal read contract: a page in
            // any state but `Written` here is itself an error.
            match self.slot0.read_page(sec, &mut abuf) {
                Ok(()) => {},
                Err(err) => {
                    proof {
                        lemma_first_unswappable_is(a, b, sec as int);
                        if hopt is Some {
                            lemma_halt_page_ge(hopt->0, sec as int);
                        }
                    }
                    return Err(err);
                },
            }
            match self.slot1.read_page(sec, &mut bbuf) {
                Ok(()) => {},
                Err(err) => {
                    proof {
                        lemma_first_unswappable_is(a, b, sec as int);
                        if hopt is Some {
                            lemma_halt_page_ge(hopt->0, sec as int);
                        }
                    }
                    return Err(err);
                },
            }
            proof {
                lemma_first_unswappable_beyond(a, b, sec as int + 1);
            }
            // Sub-step 1: erase slot 0's page.
            self.step = self.step + 1;
            proof {
                lemma_halt_at(stop_g, step0, n_i, 4 * sec as int + 1);
            }
            if self.is_stop() {
                self.slot0.partial_erase_page(sec);
                self.resume = Some(PageLocation { slot: 0, index: sec });
                proof {
                    lemma_substep_pos(sec as int, 1);
                    assert(self.s0()@ =~= exchanged_upto(a, b, sec as int).update(
                        sec as int,
                        interrupted_page0(a[sec as int], b[sec as int], 0),
                    ));
                    assert(self.s1()@ =~= exchanged_upto(b, a, sec as int).update(
                        sec as int,
                        interrupted_page1(a[sec as int], b[sec as int], 0),
                    ));
                }
                return Ok(SwapResult::Interrupted);
            }
            let _ = self.slot0.erase_page(sec);
            // Sub-step 2: write slot 1's snapshot into slot 0's page.
            self.step = self.step + 1;
            proof {
                lemma_halt_at(stop_g, step0, n_i, 4 * sec as int + 2);
            }
            if self.is_stop() {
                self.slot0.partial_write_page(sec, &bbuf);
                self.resume = Some(PageLocation { slot: 0, index: sec });
                proof {
                    lemma_substep_pos(sec as int, 2);
                    assert(self.s0()@ =~= exchanged_upto(a, b, sec as int).update(
                        sec as int,
                        interrupted_page0(a[sec as int], b[sec as int], 1),
                    ));
                    assert(self.s1()@ =~= exchanged_upto(b, a, sec as int).update(
                        sec as int,
                        interrupted_page1(a[sec as int], b[sec as int], 1),
                    ));
                }
                return Ok(SwapResult::Interrupted);
            }
            let _ = self.slot0.write_page(sec, &bbuf);
            // Sub-step 3: erase slot 1's page.
            self.step = self.step + 1;
            proof {
                lemma_halt_at(stop_g, step0, n_i, 4 * sec as int + 3);
            }
            if self.is_stop() {
                self.slot1.partial_erase_page(sec);
                self.resume = Some(PageLocation { slot: 1, index: sec });
                proof {
                    lemma_substep_pos(sec as int, 3);
                    assert(self.s0()@ =~= exchanged_upto(a, b, sec as int).update(
                        sec as int,
                        interrupted_page0(a[sec as int], b[sec as int], 2),
                    ));
                    assert(self.s1()@ =~= exchanged_upto(b, a, sec as int).update(
                        sec as int,
                        interrupted_page1(a[sec as int], b[sec as int], 2),
                    ));
                }
                return Ok(SwapResult::Interrupted);
            }
            let _ = self.slot1.erase_page(sec);
            // Sub-step 4: write slot 0's pre-mutation snapshot into slot 1's
            // page.
            self.step = self.step + 1;
            proof {
                lemma_halt_at(stop_g, step0, n_i, 4 * sec as int + 4);
            }
            if self.is_stop() {
                self.slot1.partial_write_page(sec, &abuf);
                self.resume = Some(PageLocation { slot: 1, index: sec });
                proof {
                    lemma_substep_pos(sec as int, 4);
                    assert(self.s0()@ =~= exchanged_upto(a, b, sec as int).update(
                        sec as int,
                        interrupted_page0(a[sec as int], b[sec as int], 3),
                    ));
                    assert(self.s1()@ =~= exchanged_upto(b, a, sec as int).update(
                        sec as int,
                        interrupted_page1(a[sec as int], b[sec as int], 3),
                    ));
                }
                return Ok(SwapResult::Interrupted);
            }
            let _ = self.slot1.write_page(sec, &abuf);
            proof {
                assert(self.s0()@ =~= exchanged_upto(a, b, sec as int + 1));
                assert(self.s1()@ =~= exchanged_upto(b, a, sec as int + 1));
            }
            sec = sec + 1;
        }
        proof {
            if hopt is Some {
                assert(hopt->0 <= 4 * n_i);
                assert(false);
            }
            lemma_first_unswappable_is(a, b, n_i);
        }
        Ok(SwapResult::Finished)
    }

    /// The post-swap consistency check: every page of slot 0 must hold the
    /// position-derived pattern of the matching page of slot 1 and vice
    /// versa — the slots must have fully exchanged identities.  Any page not
    /// fully written, or holding other bytes, fails the whole check.
    pub fn final_check(&self) -> (r: Result<(), FlashError>)
        requires
            self.wf(),
            self.s0()@.len() < 10000000000000,
        ensures
            r is Ok <==> fully_exchanged_patterns(self.s0()@, self.s1()@),
            r is Err ==> r == Err::<(), FlashError>(FlashError::VerificationFailure),
    {
        let n = self.slot0.len();
        let mut buf = vec![0u8; PAGE_SIZE];
        let mut expected = vec![0u8; PAGE_SIZE];
        let mut sec: usize = 0;
        while sec < n
            invariant
                self.wf(),
                sec <= n,
                n == self.s0()@.len(),
                n < 10000000000000,
                buf@.len() == PAGE_SIZE,
                expected@.len() == PAGE_SIZE,
                forall|j: int| 0 <= j < sec ==> (#[trigger] self.s0()@[j]) == written(
                    pattern(1, j as nat),
                ),
                forall|j: int| 0 <= j < sec ==> (#[trigger] self.s1()@[j]) == written(
                    pattern(0, j as nat),
                ),
            decreases n - sec,
        {
            proof {
                lemma_small_pattern_fits(0, sec as nat);
                lemma_small_pattern_fits(1, sec as nat);
            }
            // Slot 0's page must now hold slot 1's pattern.
            match self.slot0.read_page(sec, &mut buf) {
                Ok(()) => {},
                Err(_) => {
                    proof {
                        assert(self.s0()@[sec as int] != written(pattern(1, sec as nat)));
                    }
                    return Err(FlashError::VerificationFailure);
                },
            }
            Page::fill(&mut expected, 1, sec);
            if !(buf == expected) {
                proof {
                    if buf@ == expected@ {
                        assert(buf@ =~= expected@);
                        assert(false);
                    }
                    assert(self.s0()@[sec as int] != written(pattern(1, sec as nat)));
                }
                return Err(FlashError::VerificationFailure);
            }
            proof {
                assert(buf@ =~= expected@);
                assert(self.s0()@[sec as int] =~= written(pattern(1, sec as nat)));
            }
            // Slot 1's page must now hold slot 0's pattern.
            match self.slot1.read_page(sec, &mut buf) {
                Ok(()) => {},
                Err(_) => {
                    proof {
                        assert(self.s1()@[sec as int] != written(pattern(0, sec as nat)));
                    }
                    return Err(FlashError::VerificationFailure);
                },
            }
            Page::fill(&mut expected, 0, sec);
            if !(buf == expected) {
                proof {
                    if buf@ == expected@ {
                        assert(buf@ =~= expected@);
                        assert(false);
                    }
                    assert(self.s1()@[sec as int] != written(pattern(0, sec as nat)));
                }
                return Err(FlashError::VerificationFailure);
            }
            proof {
                assert(buf@ =~= expected@);
                assert(self.s1()@[sec as int] =~= written(pattern(0, sec as nat)));
            }
            sec = sec + 1;
        }
        proof {
            assert forall|i: int| 0 <= i < self.s0()@.len() implies (#[trigger] self.s0()@[i])
                == written(pattern(1, i as nat)) && (#[trigger] self.s1()@[i]) == written(
                pattern(0, i as nat),
            ) by {
                assert(self.s0()@[i] == written(pattern(1, i as nat)));
                assert(self.s1()@[i] == written(pattern(0, i as nat)));
            }
        }
        Ok(())
    }

    /// Scan the flash for the point from which an interrupted swap must
    /// resume, using only the pages' current states and contents plus the
    /// root and parity commitments.  Which scan strategy meets all the
    /// requirements — tolerating unstable reads of partially written pages,
    /// treating identical-content pages as state-independent, spending the
    /// parity block on at most one ambiguous page — is an open design
    /// question; until one is settled, the scanner reports the explicit
    /// unresolved outcome rather than guessing a location.  The result is
    /// pinned and the flash untouched, so repeated scans of the same state
    /// trivially agree.
    pub fn find_recovery(&self) -> (r: Result<PageLocation, FlashError>)
        ensures
            r == Err::<PageLocation, FlashError>(FlashError::UnresolvedRecovery),
    {
        Err(FlashError::UnresolvedRecovery)
    }

    /// Startup recovery: locate the resume point so the swap can continue
    /// from it.  Propagates the scanner's outcome and leaves the flash
    /// untouched.
    pub fn recover(&mut self) -> (r: Result<PageLocation, FlashError>)
        ensures
            *final(self) == *old(self),
            r == Err::<PageLocation, FlashError>(FlashError::UnresolvedRecovery),
    {
        self.find_recovery()
    }
}

/// The error `Status::new` reports: unequal sizes first, then the first
/// non-written page of slot 0, then of slot 1.
pub open spec fn new_error(a: Seq<PageModel>, b: Seq<PageModel>) -> FlashError {
    if a.len() != b.len() {
        FlashError::SizeMismatch
    } else if !all_written(a) {
        FlashError::InvalidState { state: a[first_unwritten(a)].state }
    } else {
        FlashError::InvalidState { state: b[first_unwritten(b)].state }
    }
}

/// If the first `m` pairs are swappable, the first unswappable index is at
/// least `m`.
proof fn lemma_first_unswappable_beyond(a: Seq<PageModel>, b: Seq<PageModel>, m: int)
    requires
        a.len() == b.len(),
        0 <= m <= a.len(),
        forall|j: int| 0 <= j < m ==> (#[trigger] a[j]).state == PageState::Written
            && b[j].state == PageState::Written,
    ensures
        first_unswappable(a, b) >= m,
{
    lemma_first_unswappable_from_props(a, b, 0);
    let r = first_unswappable(a, b);
    if r < m {
        assert(a[r].state == PageState::Written && b[r].state == PageState::Written);
    }
}

/// A halting sub-step strictly after `4 * sec` belongs to page `sec` or a
/// later one.
proof fn lemma_halt_page_ge(h: int, sec: int)
    requires
        h >= 4 * sec + 1,
        0 <= sec,
    ensures
        halt_page(h) >= sec,
{
    vstd::arithmetic::div_mod::lemma_fundamental_div_mod(h - 1, 4);
    vstd::arithmetic::div_mod::lemma_mod_bound(h - 1, 4);
}

/// Where the sub-step numbered `4 * sec + j` falls: page `sec`, kind `j - 1`.
proof fn lemma_substep_pos(sec: int, j: int)
    requires
        0 <= sec,
        1 <= j <= 4,
    ensures
        halt_page(4 * sec + j) == sec,
        halt_kind(4 * sec + j) == j - 1,
{
    vstd::arithmetic::div_mod::lemma_fundamental_div_mod_converse(4 * sec + j - 1, 4, sec, j - 1);
}

/// How the step counter relates to the halting sub-step: once the counter
/// stands at `step0 + s` and no earlier sub-step halted, the threshold is
/// exceeded exactly when sub-step `s` is the halting one.
proof fn lemma_halt_at(stop: Option<usize>, step0: int, n: int, s: int)
    requires
        0 <= step0,
        1 <= s <= 4 * n,
        halt_substep(stop, step0, n) is Some ==> halt_substep(stop, step0, n)->0 >= s,
    ensures
        (stop is Some && step0 + s > stop->0) <==> halt_substep(stop, step0, n) == Some(s),
        !(stop is Some && step0 + s > stop->0) ==> (halt_substep(stop, step0, n) is Some
            ==> halt_substep(stop, step0, n)->0 >= s + 1),
{
}

/// Interruption determinism: on a fresh coordinator over `n` pages, the stop
/// threshold `t` — for any of the `4 * n` possible values below the total —
/// halts the swap in sub-step `t + 1`, at page `t / 4`, interrupting slot 0
/// in the page's first two sub-steps and slot 1 in the last two.  Together
/// with `swap`'s contract this pins the recorded resume location, for every
/// threshold, as a function of `t` alone.
pub proof fn lemma_interruption_determinism(t: usize, n: int)
    requires
        (t as int) < 4 * n,
    ensures
        halt_substep(Some(t), 0, n) == Some(t as int + 1),
        halt_page(t as int + 1) == t as int / 4,
        halt_kind(t as int + 1) == t as int % 4,
        resume_slot(halt_kind(t as int + 1)) == (if t as int % 4 < 2 {
            0usize
        } else {
            1usize
        }),
{
    vstd::arithmetic::div_mod::lemma_mod_bound(t as int, 4);
}

/// Identical-content skip: when the two slots hold byte-identical content at
/// the interrupted page, the interrupted state is, content-wise,
/// indistinguishable from having swapped that page and from not having
/// swapped it — whichever of the four sub-steps was hit.
pub proof fn lemma_identical_content_skip(a: Seq<PageModel>, b: Seq<PageModel>, sec: int, k: int)
    requires
        a.len() == b.len(),
        0 <= sec < a.len(),
        0 <= k < 4,
        a[sec].data == b[sec].data,
    ensures
        ({
            let post0 = exchanged_upto(a, b, sec).update(
                sec,
                interrupted_page0(a[sec], b[sec], k),
            );
            let post1 = exchanged_upto(b, a, sec).update(
                sec,
                interrupted_page1(a[sec], b[sec], k),
            );
            &&& slot_datas(post0) == slot_datas(exchanged_upto(a, b, sec))
            &&& slot_datas(post0) == slot_datas(exchanged_upto(a, b, sec + 1))
            &&& slot_datas(post1) == slot_datas(exchanged_upto(b, a, sec))
            &&& slot_datas(post1) == slot_datas(exchanged_upto(b, a, sec + 1))
        }),
{
    let post0 = exchanged_upto(a, b, sec).update(sec, interrupted_page0(a[sec], b[sec], k));
    let post1 = exchanged_upto(b, a, sec).update(sec, interrupted_page1(a[sec], b[sec], k));
    assert(slot_datas(post0) =~= slot_datas(exchanged_upto(a, b, sec)));
    assert(slot_datas(post0) =~= slot_datas(exchanged_upto(a, b, sec + 1)));
    assert(slot_datas(post1) =~= slot_datas(exchanged_upto(b, a, sec)));
    assert(slot_datas(post1) =~= slot_datas(exchanged_upto(b, a, sec + 1)));
}

/// Swap completeness: slots that start fully written with their own
/// position-derived patterns and run to completion satisfy the verifier's
/// condition — each slot ends up holding the other's patterns.
pub proof fn lemma_swap_completeness(a: Seq<PageModel>, b: Seq<PageModel>)
    requires
        a.len() == b.len(),
        forall|i: int| 0 <= i < a.len() ==> (#[trigger] a[i]) == written(pattern(0, i as nat)),
        forall|i: int| 0 <= i < b.len() ==> (#[trigger] b[i]) == written(pattern(1, i as nat)),
    ensures
        fully_exchanged_patterns(
            exchanged_upto(a, b, a.len() as int),
            exchanged_upto(b, a, b.len() as int),
        ),
{
}

} // verus!
