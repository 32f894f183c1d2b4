use parity_swap::page::{Page, PageState};
use parity_swap::slot::Slot;
use parity_swap::swap::{Status, SwapResult};
use parity_swap::{FlashError, PAGE_SIZE};
use sha2::Digest;

/// A slot of `n` pages, each fully written with its position-derived pattern.
fn make_slot(index: usize, n: usize) -> Slot {
    let mut s = Slot::new(index, n);
    let mut buf = vec![0u8; PAGE_SIZE];
    for i in 0..n {
        Page::fill(&mut buf, index, i);
        s.erase_page(i).unwrap();
        s.write_page(i, &buf).unwrap();
    }
    s
}

/// The expected pattern for a position, as a page-sized buffer.
fn pattern_buf(slot: usize, index: usize) -> Vec<u8> {
    let mut buf = vec![0u8; PAGE_SIZE];
    Page::fill(&mut buf, slot, index);
    buf
}

#[test]
fn swap_completes_six_pages() {
    let mut st = Status::new(make_slot(0, 6), make_slot(1, 6)).unwrap();
    assert!(matches!(st.swap(), Ok(SwapResult::Finished)));
    assert_eq!(st.step(), 24);
    assert_eq!(st.resume(), None);
    assert_eq!(st.final_check(), Ok(()));
    // Slot 0 now holds slot 1's original six patterns and vice versa.
    let mut buf = vec![0u8; PAGE_SIZE];
    for i in 0..6 {
        st.slot(0).read_page(i, &mut buf).unwrap();
        assert_eq!(buf, pattern_buf(1, i));
        st.slot(1).read_page(i, &mut buf).unwrap();
        assert_eq!(buf, pattern_buf(0, i));
    }
}

#[test]
fn final_check_fails_before_swap() {
    // A coordinator whose slots still hold their own patterns is a
    // completed-but-incorrect swap as far as the verifier is concerned.
    let st = Status::new(make_slot(0, 6), make_slot(1, 6)).unwrap();
    assert_eq!(st.final_check(), Err(FlashError::VerificationFailure));
}

#[test]
fn interruption_thresholds() {
    // Every one of the 4 * 6 possible stop thresholds halts the swap at the
    // page and slot whose sub-step was interrupted, deterministically.
    for t in 0..24usize {
        let mut st = Status::new(make_slot(0, 6), make_slot(1, 6)).unwrap();
        st.set_stop(Some(t));
        assert!(matches!(st.swap(), Ok(SwapResult::Interrupted)));
        assert_eq!(st.step(), t + 1);
        let loc = st.resume().unwrap();
        assert_eq!(loc.index, t / 4);
        assert_eq!(loc.slot, if t % 4 < 2 { 0 } else { 1 });

        // Recovery on this exact flash snapshot is idempotent: repeated
        // calls return the same outcome and mutate nothing.
        let r1 = st.find_recovery();
        let r2 = st.find_recovery();
        assert_eq!(r1, r2);
        assert_eq!(r1, Err(FlashError::UnresolvedRecovery));
        assert_eq!(st.resume().unwrap(), loc);
        assert_eq!(st.step(), t + 1);
    }
}

#[test]
fn recovery_is_unresolved() {
    let mut st = Status::new(make_slot(0, 2), make_slot(1, 2)).unwrap();
    assert_eq!(st.recover(), Err(FlashError::UnresolvedRecovery));
}

#[test]
fn interrupted_page_states() {
    // The four sub-step kinds leave exactly the documented partial states.
    let expectations = [
        (0usize, 0usize, PageState::PartiallyErased),
        (1, 0, PageState::PartiallyWritten),
        (2, 1, PageState::PartiallyErased),
        (3, 1, PageState::PartiallyWritten),
    ];
    for &(t, slot, state) in expectations.iter() {
        let mut st = Status::new(make_slot(0, 6), make_slot(1, 6)).unwrap();
        st.set_stop(Some(t));
        assert!(matches!(st.swap(), Ok(SwapResult::Interrupted)));
        let loc = st.resume().unwrap();
        assert_eq!(loc.slot, slot);
        assert_eq!(loc.index, 0);
        assert_eq!(st.slot(slot).page_state(0), state);
    }
}

#[test]
fn identical_content_skip() {
    // Slot 0 and slot 1 start with byte-identical content at page 2.  A swap
    // interrupted anywhere in that page leaves its observable bytes equal to
    // that shared content — indistinguishable from having swapped it or not.
    let common = pattern_buf(9, 9);
    for t in 8..12usize {
        let mut s0 = make_slot(0, 6);
        let mut s1 = make_slot(1, 6);
        for s in [&mut s0, &mut s1] {
            s.erase_page(2).unwrap();
            s.write_page(2, &common).unwrap();
        }
        let mut st = Status::new(s0, s1).unwrap();
        st.set_stop(Some(t));
        assert!(matches!(st.swap(), Ok(SwapResult::Interrupted)));
        assert_eq!(st.resume().unwrap().index, 2);
        let mut buf = vec![0u8; PAGE_SIZE];
        st.slot(0).read_whatever_page(2, &mut buf).unwrap();
        assert_eq!(buf, common);
        st.slot(1).read_whatever_page(2, &mut buf).unwrap();
        assert_eq!(buf, common);
    }
}

#[test]
fn swap_after_interruption_reports_state() {
    // A second swap attempt over an interrupted flash hits the partial page
    // and reports its state rather than panicking.
    let mut st = Status::new(make_slot(0, 3), make_slot(1, 3)).unwrap();
    st.set_stop(Some(0));
    assert!(matches!(st.swap(), Ok(SwapResult::Interrupted)));
    assert_eq!(st.slot(0).page_state(0), PageState::PartiallyErased);
    st.set_stop(None);
    assert_eq!(
        st.swap(),
        Err(FlashError::InvalidState { state: PageState::PartiallyErased })
    );
}

#[test]
fn new_rejects_unequal_sizes() {
    assert_eq!(
        Status::new(make_slot(0, 4), make_slot(1, 5)).err(),
        Some(FlashError::SizeMismatch)
    );
}

#[test]
fn new_rejects_unwritten_pages() {
    // Fresh slots are only partially erased: construction is rejected
    // eagerly, naming the offending state.
    assert_eq!(
        Status::new(Slot::new(0, 3), make_slot(1, 3)).err(),
        Some(FlashError::InvalidState { state: PageState::PartiallyErased })
    );
    assert_eq!(
        Status::new(make_slot(0, 3), Slot::new(1, 3)).err(),
        Some(FlashError::InvalidState { state: PageState::PartiallyErased })
    );
}

#[test]
fn parity_reconstruction() {
    // XOR-folding all pages except one, then XORing with the stored parity,
    // reproduces the excluded page's payload exactly.
    let n = 5;
    let slot = make_slot(0, n);
    let parity = slot.compute_parity();
    for excluded in 0..n {
        let mut acc = parity.clone();
        let mut buf = vec![0u8; PAGE_SIZE];
        for i in 0..n {
            if i != excluded {
                slot.read_page(i, &mut buf).unwrap();
                for (a, b) in acc.iter_mut().zip(buf.iter()) {
                    *a ^= b;
                }
            }
        }
        slot.read_page(excluded, &mut buf).unwrap();
        assert_eq!(acc, buf);
    }
}

#[test]
fn root_is_streaming_hash_of_bound_digests() {
    // The Merkle root is the hash of the pages' position-bound digests, in
    // index order, computed here directly with the hash crate.
    let slot = make_slot(1, 3);
    let root = slot.compute_root().unwrap();
    let mut all = Vec::new();
    for i in 0..3usize {
        let mut input = Vec::new();
        input.extend_from_slice(&1u64.to_le_bytes());
        input.extend_from_slice(&(i as u64).to_le_bytes());
        input.extend_from_slice(&pattern_buf(1, i));
        all.extend_from_slice(&sha2::Sha256::digest(&input));
    }
    let expected = sha2::Sha256::digest(&all).to_vec();
    assert_eq!(root, expected);
}

#[test]
fn root_needs_written_pages() {
    let slot = Slot::new(1, 2);
    assert_eq!(
        slot.compute_root().err(),
        Some(FlashError::InvalidState { state: PageState::PartiallyErased })
    );
}

#[test]
fn commitments_survive_the_swap() {
    // Root and parity are commitments against the pre-swap state: the swap
    // leaves them untouched.
    let s0 = make_slot(0, 4);
    let s1 = make_slot(1, 4);
    let parity_before = s0.compute_parity();
    let root_before = s1.compute_root().unwrap();
    let mut st = Status::new(s0, s1).unwrap();
    assert_eq!(st.parity(), &parity_before);
    assert_eq!(st.root(), &root_before);
    assert!(matches!(st.swap(), Ok(SwapResult::Finished)));
    assert_eq!(st.parity(), &parity_before);
    assert_eq!(st.root(), &root_before);
}
