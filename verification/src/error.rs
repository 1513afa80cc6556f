//! Error model for the resolver.
//!
//! Failures are classified exactly as the resolution engine produces
//! them: syscall-level failures keep their errno, caller mistakes are
//! `InvalidArgument`, an exhausted symlink budget is `SymlinkLoop`, and
//! internal impossibilities are `SafetyViolation`. The foreign boundary
//! flattens an error into `(saved_errno, description)` via
//! [`error_info`].

use vstd::prelude::*;

verus! {

/// `errno` for a missing directory entry.
pub const ENOENT: i32 = 2;
/// `errno` for a path component that is not a directory.
pub const ENOTDIR: i32 = 20;
/// `errno` for too many levels of symbolic links.
pub const ELOOP: i32 = 40;
/// `errno` for a syscall the running kernel does not provide.
pub const ENOSYS: i32 = 38;
/// `errno` for an invalid argument.
pub const EINVAL: i32 = 22;

/// The classification of an [`Error`], without its textual detail.
#[derive(Clone, Copy, Debug, PartialEq, Eq, Structural)]
pub enum ErrorKind {
    /// A syscall failed with the carried errno.
    OsError(i32),
    /// The caller violated the interface contract.
    InvalidArgument,
    /// A resolution step observed an impossible state.
    SafetyViolation,
    /// The symlink-traversal budget was exhausted.
    SymlinkLoop,
    /// The selected backend is unavailable on this kernel.
    BackendUnsupported,
    /// Reserved for stubs.
    NotImplemented,
}

/// A resolution failure, carrying enough detail to render a
/// human-readable description.
#[derive(Debug)]
pub enum Error {
    /// A syscall failed; `operation` names it, `errno` is its error.
    OsError { operation: Vec<u8>, errno: i32 },
    /// The caller violated the interface contract.
    InvalidArgument { field: Vec<u8>, reason: Vec<u8> },
    /// A resolution step observed an impossible state.
    SafetyViolation { reason: Vec<u8> },
    /// The symlink-traversal budget was exhausted.
    SymlinkLoop,
    /// The selected backend is unavailable on this kernel.
    BackendUnsupported,
    /// Reserved for stubs.
    NotImplemented,
}

impl Error {
    /// The classification this error belongs to.
    pub open spec fn kind_spec(&self) -> ErrorKind {
        match self {
            Error::OsError { errno, .. } => ErrorKind::OsError(*errno),
            Error::InvalidArgument { .. } => ErrorKind::InvalidArgument,
            Error::SafetyViolation { .. } => ErrorKind::SafetyViolation,
            Error::SymlinkLoop => ErrorKind::SymlinkLoop,
            Error::BackendUnsupported => ErrorKind::BackendUnsupported,
            Error::NotImplemented => ErrorKind::NotImplemented,
        }
    }

    /// Classify this error.
    pub fn kind(&self) -> (k: ErrorKind)
        ensures
            k == self.kind_spec(),
    {
        match self {
            Error::OsError { errno, .. } => ErrorKind::OsError(*errno),
            Error::InvalidArgument { .. } => ErrorKind::InvalidArgument,
            Error::SafetyViolation { .. } => ErrorKind::SafetyViolation,
            Error::SymlinkLoop => ErrorKind::SymlinkLoop,
            Error::BackendUnsupported => ErrorKind::BackendUnsupported,
            Error::NotImplemented => ErrorKind::NotImplemented,
        }
    }

    /// The errno to report across the foreign boundary: the absolute
    /// value of a syscall errno, `0` for every other kind (and for the
    /// one unrepresentable negative).
    pub open spec fn saved_errno_spec(&self) -> u64 {
        match self.kind_spec() {
            ErrorKind::OsError(e) => {
                if e == i32::MIN {
                    0
                } else if e < 0 {
                    (-e) as u64
                } else {
                    e as u64
                }
            },
            _ => 0,
        }
    }

    /// The textual parts of this error's description, leading with
    /// the kind's tag and followed by its detail, cause-like, in
    /// order.
    pub open spec fn desc_parts(&self) -> Seq<Seq<u8>> {
        match self {
            Error::OsError { operation, .. } => seq![tag_os_error(), operation@],
            Error::InvalidArgument { field, reason } => seq![
                tag_invalid_argument(),
                field@,
                reason@,
            ],
            Error::SafetyViolation { reason } => seq![tag_safety_violation(), reason@],
            Error::SymlinkLoop => seq![tag_symlink_loop()],
            Error::BackendUnsupported => seq![tag_backend_unsupported()],
            Error::NotImplemented => seq![tag_not_implemented()],
        }
    }

    /// The rendered description: the parts joined with `": "`.
    pub open spec fn describe_spec(&self) -> Seq<u8> {
        chain_desc(self.desc_parts())
    }

    /// Render the description: the error and its causal detail,
    /// concatenated with `": "` separators.
    pub fn describe(&self) -> (r: Vec<u8>)
        ensures
            r@ == self.describe_spec(),
    {
        match self {
            Error::OsError { operation, .. } => {
                let mut out: Vec<u8> = vec![111u8, 115u8, 32u8, 101u8, 114u8, 114u8, 111u8, 114u8];
                push_sep(&mut out);
                let mut op = vstd::slice::slice_to_vec(operation.as_slice());
                out.append(&mut op);
                proof {
                    let parts = self.desc_parts();
                    assert(parts.skip(1) =~= seq![operation@]);
                    assert(chain_desc(seq![operation@]) == operation@);
                    assert(out@ =~= chain_desc(parts));
                }
                out
            },
            Error::InvalidArgument { field, reason } => {
                let mut out: Vec<u8> = vec![
                    105u8, 110u8, 118u8, 97u8, 108u8, 105u8, 100u8, 32u8, 97u8, 114u8, 103u8,
                    117u8, 109u8, 101u8, 110u8, 116u8,
                ];
                push_sep(&mut out);
                let mut f = vstd::slice::slice_to_vec(field.as_slice());
                out.append(&mut f);
                push_sep(&mut out);
                let mut why = vstd::slice::slice_to_vec(reason.as_slice());
                out.append(&mut why);
                proof {
                    let parts = self.desc_parts();
                    assert(parts.skip(1) =~= seq![field@, reason@]);
                    assert(parts.skip(1).skip(1) =~= seq![reason@]);
                    assert(chain_desc(seq![reason@]) == reason@);
                    assert(chain_desc(parts.skip(1)) == parts.skip(1)[0] + desc_sep()
                        + chain_desc(parts.skip(1).skip(1)));
                    assert(chain_desc(parts.skip(1)) == field@ + desc_sep() + reason@);
                    assert(out@ =~= chain_desc(parts));
                }
                out
            },
            Error::SafetyViolation { reason } => {
                let mut out: Vec<u8> = vec![
                    115u8, 97u8, 102u8, 101u8, 116u8, 121u8, 32u8, 118u8, 105u8, 111u8, 108u8,
                    97u8, 116u8, 105u8, 111u8, 110u8,
                ];
                push_sep(&mut out);
                let mut why = vstd::slice::slice_to_vec(reason.as_slice());
                out.append(&mut why);
                proof {
                    let parts = self.desc_parts();
                    assert(parts.skip(1) =~= seq![reason@]);
                    assert(chain_desc(seq![reason@]) == reason@);
                    assert(out@ =~= chain_desc(parts));
                }
                out
            },
            Error::SymlinkLoop => {
                let out: Vec<u8> = vec![
                    115u8, 121u8, 109u8, 108u8, 105u8, 110u8, 107u8, 32u8, 108u8, 111u8, 111u8,
                    112u8,
                ];
                proof {
                    assert(out@ =~= chain_desc(self.desc_parts()));
                }
                out
            },
            Error::BackendUnsupported => {
                let out: Vec<u8> = vec![
                    98u8, 97u8, 99u8, 107u8, 101u8, 110u8, 100u8, 32u8, 117u8, 110u8, 115u8,
                    117u8, 112u8, 112u8, 111u8, 114u8, 116u8, 101u8, 100u8,
                ];
                proof {
                    assert(out@ =~= chain_desc(self.desc_parts()));
                }
                out
            },
            Error::NotImplemented => {
                let out: Vec<u8> = vec![
                    110u8, 111u8, 116u8, 32u8, 105u8, 109u8, 112u8, 108u8, 101u8, 109u8, 101u8,
                    110u8, 116u8, 101u8, 100u8,
                ];
                proof {
                    assert(out@ =~= chain_desc(self.desc_parts()));
                }
                out
            },
        }
    }

    /// The errno to report across the foreign boundary.
    pub fn saved_errno(&self) -> (r: u64)
        ensures
            r == self.saved_errno_spec(),
    {
        match self {
            Error::OsError { errno, .. } => {
                let e: i32 = *errno;
                if e == i32::MIN {
                    0
                } else if e < 0 {
                    (-e) as u64
                } else {
                    e as u64
                }
            },
            _ => 0,
        }
    }
}

/// The separator between the links of a description chain: `": "`.
pub open spec fn desc_sep() -> Seq<u8> {
    seq![58u8, 32u8]
}

/// The bytes of `"os error"`.
pub open spec fn tag_os_error() -> Seq<u8> {
    seq![111u8, 115u8, 32u8, 101u8, 114u8, 114u8, 111u8, 114u8]
}

/// The bytes of `"invalid argument"`.
pub open spec fn tag_invalid_argument() -> Seq<u8> {
    seq![
        105u8,
        110u8,
        118u8,
        97u8,
        108u8,
        105u8,
        100u8,
        32u8,
        97u8,
        114u8,
        103u8,
        117u8,
        109u8,
        101u8,
        110u8,
        116u8,
    ]
}

/// The bytes of `"safety violation"`.
pub open spec fn tag_safety_violation() -> Seq<u8> {
    seq![
        115u8,
        97u8,
        102u8,
        101u8,
        116u8,
        121u8,
        32u8,
        118u8,
        105u8,
        111u8,
        108u8,
        97u8,
        116u8,
        105u8,
        111u8,
        110u8,
    ]
}

/// The bytes of `"symlink loop"`.
pub open spec fn tag_symlink_loop() -> Seq<u8> {
    seq![115u8, 121u8, 109u8, 108u8, 105u8, 110u8, 107u8, 32u8, 108u8, 111u8, 111u8, 112u8]
}

/// The bytes of `"backend unsupported"`.
pub open spec fn tag_backend_unsupported() -> Seq<u8> {
    seq![
        98u8,
        97u8,
        99u8,
        107u8,
        101u8,
        110u8,
        100u8,
        32u8,
        117u8,
        110u8,
        115u8,
        117u8,
        112u8,
        112u8,
        111u8,
        114u8,
        116u8,
        101u8,
        100u8,
    ]
}

/// The bytes of `"not implemented"`.
pub open spec fn tag_not_implemented() -> Seq<u8> {
    seq![
        110u8,
        111u8,
        116u8,
        32u8,
        105u8,
        109u8,
        112u8,
        108u8,
        101u8,
        109u8,
        101u8,
        110u8,
        116u8,
        101u8,
        100u8,
    ]
}

/// Description parts joined with `": "`.
pub open spec fn chain_desc(parts: Seq<Seq<u8>>) -> Seq<u8>
    decreases parts.len(),
{
    if parts.len() == 0 {
        Seq::empty()
    } else if parts.len() == 1 {
        parts[0]
    } else {
        parts[0] + desc_sep() + chain_desc(parts.skip(1))
    }
}

/// Append `": "`.
fn push_sep(out: &mut Vec<u8>)
    ensures
        final(out)@ == old(out)@ + desc_sep(),
{
    out.push(58u8);
    out.push(32u8);
    proof {
        assert(out@ =~= old(out)@ + desc_sep());
    }
}

/// An error flattened for the foreign boundary: the saved errno (0
/// when the error is not syscall-sourced) and the rendered
/// description.
pub struct ErrorInfo {
    /// Raw errno of the underlying error, absolute value.
    pub saved_errno: u64,
    /// Textual description of the error and its causal detail.
    pub description: Vec<u8>,
}

/// Flatten an error for the foreign boundary.
pub fn error_info(e: &Error) -> (r: ErrorInfo)
    ensures
        r.saved_errno == e.saved_errno_spec(),
        r.description@ == e.describe_spec(),
{
    ErrorInfo { saved_errno: e.saved_errno(), description: e.describe() }
}

} // verus!
