use parity_swap::page::{Page, PageLocation, PageState};
use parity_swap::slot::Slot;
use parity_swap::{FlashError, PAGE_SIZE};
use sha2::Digest;

#[test]
fn test_flash_basics() {
    let mut fl = Slot::new(0, 10);
    let mut buf = vec![0u8; PAGE_SIZE];

    // Ensure that these pages are all in a weird erased state.
    for p in 0..fl.len() {
        assert!(matches!(fl.read_page(p, &mut buf), Err(_)));
    }

    // It should also be an error to write to the pages.
    assert!(matches!(fl.write_page(1, &buf), Err(_)));

    // Erase the page, and make sure it is usable that way.
    assert!(matches!(fl.erase_page(1), Ok(())));

    // Read should still fail.
    assert!(matches!(fl.read_page(1, &mut buf), Err(_)));

    // But read whatever should return erased data.
    assert!(matches!(fl.read_whatever_page(1, &mut buf), Ok(())));

    // The data should appear erased.
    assert!(buf.iter().all(|&b| b == 0xFF));

    Page::fill(&mut buf, 5, 7);

    // Write the pattern to the erased page.
    assert!(matches!(fl.write_page(1, &buf), Ok(())));

    buf.fill(0x00);

    // Read it back.
    assert!(matches!(fl.read_page(1, &mut buf), Ok(())));

    assert!(matches!(Page::check(&buf, 5, 7), Ok(())));
}

#[test]
fn erase_before_write() {
    // A write without a preceding erase fails with an invalid-state error,
    // whatever state the page is in; write after erase succeeds and the page
    // becomes readable.
    let mut p = Page::new();
    let buf = vec![0xABu8; PAGE_SIZE];
    assert_eq!(
        p.write(&buf),
        Err(FlashError::InvalidState { state: PageState::PartiallyErased })
    );
    p.erase().unwrap();
    assert_eq!(p.write(&buf), Ok(()));
    // Now written: writing again without an erase fails again.
    assert_eq!(
        p.write(&buf),
        Err(FlashError::InvalidState { state: PageState::Written })
    );
    let mut out = vec![0u8; PAGE_SIZE];
    assert_eq!(p.read(&mut out), Ok(()));
    assert_eq!(out, buf);
}

#[test]
fn read_gating() {
    // A normal read fails for every state but `Written`; `read_whatever`
    // always succeeds and hands back the raw buffer.
    let mut p = Page::new();
    let mut out = vec![0u8; PAGE_SIZE];
    // PartiallyErased.
    assert_eq!(
        p.read(&mut out),
        Err(FlashError::InvalidState { state: PageState::PartiallyErased })
    );
    assert_eq!(p.read_whatever(&mut out), Ok(()));
    assert_eq!(out, vec![0xFFu8; PAGE_SIZE]);
    // Erased.
    p.erase().unwrap();
    assert_eq!(
        p.read(&mut out),
        Err(FlashError::InvalidState { state: PageState::Erased })
    );
    // PartiallyWritten.
    let buf = vec![0x5Au8; PAGE_SIZE];
    p.partial_write(&buf);
    assert_eq!(
        p.read(&mut out),
        Err(FlashError::InvalidState { state: PageState::PartiallyWritten })
    );
    assert_eq!(p.read_whatever(&mut out), Ok(()));
    assert_eq!(out, buf);
    // Written.
    p.erase().unwrap();
    p.write(&buf).unwrap();
    assert_eq!(p.read(&mut out), Ok(()));
    assert_eq!(out, buf);
}

#[test]
fn fill_exact_bytes() {
    let mut buf = vec![0u8; PAGE_SIZE];
    Page::fill(&mut buf, 5, 7);
    let mut expected = b"Slot 5, page 7, data".to_vec();
    expected.resize(PAGE_SIZE, 0xFF);
    assert_eq!(buf, expected);

    Page::fill(&mut buf, 0, 13);
    let mut expected = b"Slot 0, page 13, data".to_vec();
    expected.resize(PAGE_SIZE, 0xFF);
    assert_eq!(buf, expected);
}

#[test]
fn check_rejects_mismatch() {
    let mut buf = vec![0u8; PAGE_SIZE];
    Page::fill(&mut buf, 2, 3);
    assert_eq!(Page::check(&buf, 2, 3), Ok(()));
    buf[0] ^= 1;
    assert_eq!(Page::check(&buf, 2, 3), Err(FlashError::VerificationFailure));
}

#[test]
fn digest_binds_position() {
    // Same payload, different position: the digests differ, both across
    // slots and across page indices.
    let mut p = Page::new();
    let mut payload = vec![0u8; PAGE_SIZE];
    Page::fill(&mut payload, 3, 4);
    p.erase().unwrap();
    p.write(&payload).unwrap();
    let d_0_5 = p.digest(&PageLocation { slot: 0, index: 5 }).unwrap();
    let d_1_5 = p.digest(&PageLocation { slot: 1, index: 5 }).unwrap();
    let d_0_6 = p.digest(&PageLocation { slot: 0, index: 6 }).unwrap();
    assert_ne!(d_0_5, d_1_5);
    assert_ne!(d_0_5, d_0_6);
    assert_ne!(d_1_5, d_0_6);

    // Cross-check the digest against a direct SHA-256 of the bound input:
    // little-endian slot and index, then the payload.
    let mut input = Vec::new();
    input.extend_from_slice(&0u64.to_le_bytes());
    input.extend_from_slice(&5u64.to_le_bytes());
    input.extend_from_slice(&payload);
    let direct = sha2::Sha256::digest(&input).to_vec();
    assert_eq!(d_0_5, direct);
}

#[test]
fn digest_needs_written_page() {
    let p = Page::new();
    assert_eq!(
        p.digest(&PageLocation { slot: 0, index: 0 }),
        Err(FlashError::InvalidState { state: PageState::PartiallyErased })
    );
}
