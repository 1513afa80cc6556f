//! Resolver configuration and the shape of lookup results.
//!
//! A resolution is conducted by one of two backends sharing one
//! contract: the in-kernel one (a single `openat2` call with
//! `RESOLVE_IN_ROOT`) and the emulated one (the component walker of
//! [`crate::walker`]). The backend set is closed and probe-determined;
//! the probe itself is a syscall, so the decision functions here take
//! its outcome as an argument.

use vstd::prelude::*;

use crate::error::{Error, ErrorKind, ENOENT};

verus! {

/// Flags a resolution honors.
#[derive(Clone, Copy, Debug, PartialEq, Eq, Structural)]
pub struct ResolverFlags {
    /// Reject any symlink encountered, the trailing component
    /// included, with `ELOOP`.
    pub no_symlinks: bool,
}

impl Default for ResolverFlags {
    /// No flag is set by default.
    fn default() -> (r: Self)
        ensures
            !r.no_symlinks,
    {
        ResolverFlags { no_symlinks: false }
    }
}

/// The backend used for path resolution.
#[derive(Clone, Copy, Debug, PartialEq, Eq, Structural)]
pub enum ResolverBackend {
    /// The native `openat2(2)` backend (requires kernel support).
    KernelOpenat2,
    /// The userspace, component-walking backend.
    EmulatedOpath,
}

impl ResolverBackend {
    /// Whether this backend can work, given the outcome of the
    /// one-time `openat2` capability probe: the kernel backend needs
    /// the probe to have succeeded, the emulated one always works.
    pub fn supported(self, openat2_supported: bool) -> (r: bool)
        ensures
            r == match self {
                ResolverBackend::KernelOpenat2 => openat2_supported,
                ResolverBackend::EmulatedOpath => true,
            },
    {
        match self {
            ResolverBackend::KernelOpenat2 => openat2_supported,
            ResolverBackend::EmulatedOpath => true,
        }
    }

    /// The backend to use on this machine, given the probe's outcome:
    /// the kernel backend when it is available, the emulated one
    /// otherwise.
    pub fn detect(openat2_supported: bool) -> (r: ResolverBackend)
        ensures
            r == if openat2_supported {
                ResolverBackend::KernelOpenat2
            } else {
                ResolverBackend::EmulatedOpath
            },
    {
        if openat2_supported {
            ResolverBackend::KernelOpenat2
        } else {
            ResolverBackend::EmulatedOpath
        }
    }
}

/// Resolver backend and its associated flags: how a root conducts
/// path resolutions.
#[derive(Clone, Copy, Debug, PartialEq, Eq, Structural)]
pub struct Resolver {
    /// Underlying resolution backend used.
    pub backend: ResolverBackend,
    /// Flags to pass to the resolution backend.
    pub flags: ResolverFlags,
}

impl Resolver {
    /// A resolver with the given backend and no flag set.
    pub fn new(backend: ResolverBackend) -> (r: Resolver)
        ensures
            r.backend == backend,
            !r.flags.no_symlinks,
    {
        Resolver { backend, flags: ResolverFlags { no_symlinks: false } }
    }
}

/// The result of a lookup that is allowed to stop early: either the
/// whole path resolved, or the deepest ancestor that did resolve is
/// handed back with the suffix that did not and the error it met.
pub enum PartialLookup<H> {
    /// The whole path resolved to this handle.
    Complete(H),
    /// Resolution stopped at `handle`; `remaining` is the non-empty
    /// unresolved suffix and `last_error` why its first component did
    /// not resolve.
    Partial { handle: H, remaining: Vec<u8>, last_error: Error },
}

impl<H> PartialLookup<H> {
    /// The handle carried, complete or not.
    pub fn as_ref(&self) -> (r: &H)
        ensures
            *r == match self {
                PartialLookup::Complete(h) => *h,
                PartialLookup::Partial { handle, .. } => *handle,
            },
    {
        match self {
            PartialLookup::Complete(handle) => handle,
            PartialLookup::Partial { handle, .. } => handle,
        }
    }

    /// Keep only a complete resolution; a partial one becomes the
    /// error its unresolved suffix met.
    pub fn try_into_handle(self) -> (r: Result<H, Error>)
        ensures
            match self {
                PartialLookup::Complete(h) => r == Ok::<H, Error>(h),
                PartialLookup::Partial { last_error, .. } => r == Err::<H, Error>(last_error),
            },
    {
        match self {
            PartialLookup::Complete(handle) => Ok(handle),
            PartialLookup::Partial { last_error, .. } => Err(last_error),
        }
    }

    /// Split into handle and unresolved suffix. A complete resolution
    /// has no suffix; a partial one keeps its suffix only when it
    /// stopped at a missing entry (`ENOENT`) — any other error is
    /// fatal.
    pub fn try_into_parts(self) -> (r: Result<(H, Option<Vec<u8>>), Error>)
        ensures
            match self {
                PartialLookup::Complete(h) => r == Ok::<(H, Option<Vec<u8>>), Error>(
                    (h, None::<Vec<u8>>),
                ),
                PartialLookup::Partial { handle, remaining, last_error } => {
                    if last_error.kind_spec() == ErrorKind::OsError(ENOENT) {
                        r == Ok::<(H, Option<Vec<u8>>), Error>((handle, Some(remaining)))
                    } else {
                        r == Err::<(H, Option<Vec<u8>>), Error>(last_error)
                    }
                },
            },
    {
        match self {
            PartialLookup::Complete(handle) => Ok((handle, None)),
            PartialLookup::Partial { handle, remaining, last_error } => {
                let is_enoent = match &last_error {
                    Error::OsError { errno, .. } => *errno == ENOENT,
                    _ => false,
                };
                if is_enoent {
                    Ok((handle, Some(remaining)))
                } else {
                    Err(last_error)
                }
            },
        }
    }
}

} // verus!
