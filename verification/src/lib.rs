//! Race-free path resolution confined to a directory subtree.
//!
//! The crate models the userspace side of `openat2(RESOLVE_IN_ROOT)`:
//! a caller-supplied path is resolved component by component against a
//! designated root directory, `..` is clamped at the root, symlinks are
//! expanded under a bounded budget, and absolute symlink targets are
//! re-rooted at the root rather than at the system root.
//!
//! The resolution engine itself is a pure state machine ([`walker`]):
//! the embedding program performs the actual descriptor-relative
//! syscalls and feeds their outcomes back as events, so every decision
//! the resolver takes is verified here while the I/O stays outside.

use vstd::prelude::*;

pub mod error;
pub mod error_store;
pub mod path;
pub mod fsmodel;
pub mod laws;
pub mod resolvers;
pub mod walker;

verus! {

/// Number of symlink expansions a single resolution may perform.
pub const MAX_SYMLINK_TRAVERSALS: u32 = 128;

} // verus!
