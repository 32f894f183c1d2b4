//! Crash-consistent dual-slot flash image swap.
//!
//! Simulates the page-by-page exchange of two equally sized flash regions
//! ("slots") under the constraints of real flash hardware: a page must be
//! erased before it can be written again, and an interruption can strike
//! between any two of the four erase/write sub-steps that make up one page
//! exchange.  Content-addressed digests, a position-bound Merkle root and an
//! XOR parity block are the commitments that let a restarted system reason
//! about how far a swap progressed using only the data already on flash.

use vstd::prelude::*;

pub mod hash;
pub mod parity;
pub mod pdump;
pub mod slot;
pub mod swap;
pub mod page;

verus! {

/// Size of one flash page in bytes, fixed for a whole run.
pub const PAGE_SIZE: usize = 32;

/// Everything that can go wrong inside the flash simulation.  All of these
/// are reported as values: recovery code deliberately probes pages in
/// unexpected states, so nothing in the core may abort.
#[derive(Clone, Copy, Debug, PartialEq, Eq, Structural)]
pub enum FlashError {
    /// A page was read while not `Written`, or written while not `Erased`;
    /// carries the state the page was actually in.
    InvalidState { state: crate::page::PageState },
    /// The two slots of a swap do not have the same number of pages.
    SizeMismatch,
    /// A page's content does not match what a completed swap must produce.
    VerificationFailure,
    /// The recovery scan could not determine a unique resume point.
    UnresolvedRecovery,
}

} // verus!
