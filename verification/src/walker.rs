//! The emulated resolution engine, as a pure state machine.
//!
//! The engine holds everything a resolution decides on — the unread
//! components, the symlink budget, the flags — but never a descriptor.
//! The embedding program keeps a stack of `O_PATH` directory
//! descriptors (bottom: the root), asks the engine what to do next
//! ([`Walker::advance`]), performs the single descriptor-relative
//! syscall the answer names, and reports what came back
//! ([`Walker::resolved`]). Every decision — clamping `..` at the root,
//! re-rooting absolute symlink targets, charging the symlink budget,
//! classifying failures as partial or fatal — is made and verified
//! here.
//!
//! A symlink found in a position where it must be expanded is first
//! held against the `no_symlinks` flag (any symlink, trailing ones
//! included, is then rejected with `ELOOP`), then against the
//! trailing-component policy, and only then charged to the budget.

use vstd::prelude::*;

use crate::error::{Error, ErrorKind, ELOOP, ENOENT, ENOTDIR};
use crate::path::{comps_view, comps_wf, lex, lex_bytes, Component, GComp, SLASH};
use crate::MAX_SYMLINK_TRAVERSALS;

verus! {

/// Ghost state of a walk in progress.
pub struct WSpec {
    /// Components not yet resolved, in walk order.
    pub remaining: Seq<GComp>,
    /// Symlink expansions still allowed.
    pub budget: nat,
    /// Whether the descriptor on top of the embedder's stack is a
    /// directory.
    pub top_is_dir: bool,
    /// Reject every symlink encountered.
    pub no_symlinks: bool,
    /// Do not expand a symlink in the trailing component; resolve to
    /// the symlink itself.
    pub no_follow_trailing: bool,
    /// An [`Step::Open`] was issued and awaits its reply.
    pub pending: bool,
}

/// What the embedder must do next.
pub enum Step {
    /// Nothing is left; the descriptor on top of the stack is the
    /// resolved handle.
    Complete,
    /// A `..` at the root was clamped to a no-op; ask again.
    Clamped,
    /// Pop one descriptor off the stack; `..` moves to the parent.
    Ascend,
    /// Open `name` relative to the top descriptor with
    /// `O_PATH|O_NOFOLLOW|O_CLOEXEC`, examine it, and report back.
    Open { name: Vec<u8> },
    /// The walk stopped: the top descriptor is the deepest ancestor
    /// that resolved, and the engine's remainder did not.
    Partial { errno: i32 },
}

/// Spec-level image of a [`Step`].
pub enum GStep {
    Complete,
    Clamped,
    Ascend,
    Open(Seq<u8>),
    Partial(int),
}

impl View for Step {
    type V = GStep;

    open spec fn view(&self) -> GStep {
        match self {
            Step::Complete => GStep::Complete,
            Step::Clamped => GStep::Clamped,
            Step::Ascend => GStep::Ascend,
            Step::Open { name } => GStep::Open(name@),
            Step::Partial { errno } => GStep::Partial(*errno as int),
        }
    }
}

/// What the embedder found when it performed an [`Step::Open`].
pub enum Reply {
    /// The opened entry is a directory.
    Dir,
    /// The opened entry is neither a directory nor a symlink.
    NonDir,
    /// The opened entry is a symlink with the given target bytes.
    Symlink { target: Vec<u8> },
    /// The open failed with the given errno.
    Failed { errno: i32 },
}

/// Spec-level image of a [`Reply`].
pub enum GReply {
    Dir,
    NonDir,
    Symlink(Seq<u8>),
    Failed(int),
}

impl View for Reply {
    type V = GReply;

    open spec fn view(&self) -> GReply {
        match self {
            Reply::Dir => GReply::Dir,
            Reply::NonDir => GReply::NonDir,
            Reply::Symlink { target } => GReply::Symlink(target@),
            Reply::Failed { errno } => GReply::Failed(*errno as int),
        }
    }
}

/// How the embedder must react to a [`Reply`].
pub enum Flow {
    /// Keep the opened descriptor: push it onto the stack.
    Descend,
    /// Close the opened descriptor; a symlink was expanded in place.
    DropChild,
    /// Close the opened descriptor and truncate the stack back to the
    /// root: an absolute symlink target restarts there.
    RestartRoot,
    /// The walk is finished and the opened descriptor itself — a
    /// trailing symlink under the no-follow policy — is the handle.
    CompleteSymlink,
    /// The walk stopped: the top descriptor is the deepest ancestor
    /// that resolved, and the engine's remainder did not.
    Partial { errno: i32 },
    /// The walk failed outright.
    Abort { error: Error },
}

/// Spec-level image of a [`Flow`].
pub enum GFlow {
    Descend,
    DropChild,
    RestartRoot,
    CompleteSymlink,
    Partial(int),
    Abort(ErrorKind),
}

impl View for Flow {
    type V = GFlow;

    open spec fn view(&self) -> GFlow {
        match self {
            Flow::Descend => GFlow::Descend,
            Flow::DropChild => GFlow::DropChild,
            Flow::RestartRoot => GFlow::RestartRoot,
            Flow::CompleteSymlink => GFlow::CompleteSymlink,
            Flow::Partial { errno } => GFlow::Partial(*errno as int),
            Flow::Abort { error } => GFlow::Abort(error.kind_spec()),
        }
    }
}

/// The resolution engine.
pub struct Walker {
    no_symlinks: bool,
    no_follow_trailing: bool,
    remaining: Vec<Component>,
    budget: u32,
    top_is_dir: bool,
    pending: bool,
}

impl View for Walker {
    type V = WSpec;

    closed spec fn view(&self) -> WSpec {
        WSpec {
            remaining: comps_view(self.remaining@),
            budget: self.budget as nat,
            top_is_dir: self.top_is_dir,
            no_symlinks: self.no_symlinks,
            no_follow_trailing: self.no_follow_trailing,
            pending: self.pending,
        }
    }
}

/// Exact effect of [`Walker::advance`].
pub open spec fn advance_post(pre: WSpec, post: WSpec, at_root: bool, step: GStep) -> bool {
    if pre.remaining.len() == 0 {
        post == pre && step == GStep::Complete
    } else if !pre.top_is_dir {
        post == pre && step == GStep::Partial(ENOTDIR as int)
    } else {
        match pre.remaining[0] {
            GComp::DotDot => {
                &&& post == WSpec { remaining: pre.remaining.skip(1), ..pre }
                &&& step == if at_root {
                    GStep::Clamped
                } else {
                    GStep::Ascend
                }
            },
            GComp::Name(n) => {
                &&& post == WSpec { pending: true, ..pre }
                &&& step == GStep::Open(n)
            },
        }
    }
}

/// Exact effect of [`Walker::resolved`], given that `pre.remaining`
/// begins with the name that was opened.
pub open spec fn resolved_post(pre: WSpec, post: WSpec, reply: GReply, flow: GFlow) -> bool {
    match reply {
        GReply::Dir => {
            &&& post == WSpec {
                remaining: pre.remaining.skip(1),
                top_is_dir: true,
                pending: false,
                ..pre
            }
            &&& flow == GFlow::Descend
        },
        GReply::NonDir => {
            &&& post == WSpec {
                remaining: pre.remaining.skip(1),
                top_is_dir: false,
                pending: false,
                ..pre
            }
            &&& flow == GFlow::Descend
        },
        GReply::Failed(errno) => {
            &&& post == WSpec { pending: false, ..pre }
            &&& flow == if errno == ENOENT as int || errno == ENOTDIR as int {
                GFlow::Partial(errno)
            } else {
                GFlow::Abort(ErrorKind::OsError(errno as i32))
            }
        },
        GReply::Symlink(target) => {
            if pre.no_symlinks {
                &&& post == WSpec { pending: false, ..pre }
                &&& flow == GFlow::Abort(ErrorKind::OsError(ELOOP))
            } else if pre.remaining.len() == 1 && pre.no_follow_trailing {
                &&& post == WSpec {
                    remaining: pre.remaining.skip(1),
                    top_is_dir: false,
                    pending: false,
                    ..pre
                }
                &&& flow == GFlow::CompleteSymlink
            } else if pre.budget == 0 {
                &&& post == WSpec { pending: false, ..pre }
                &&& flow == GFlow::Abort(ErrorKind::SymlinkLoop)
            } else if target.len() == 0 || target.contains(0) {
                &&& post == WSpec { pending: false, ..pre }
                &&& flow == GFlow::Abort(ErrorKind::SafetyViolation)
            } else {
                &&& post == WSpec {
                    remaining: lex(target) + pre.remaining.skip(1),
                    budget: (pre.budget - 1) as nat,
                    top_is_dir: true,
                    pending: false,
                    ..pre
                }
                &&& flow == if target[0] == SLASH {
                    GFlow::RestartRoot
                } else {
                    GFlow::DropChild
                }
            }
        },
    }
}

impl Walker {
    /// Internal consistency of the engine's state.
    pub open spec fn wf(&self) -> bool {
        &&& self@.budget <= MAX_SYMLINK_TRAVERSALS
        &&& comps_wf(self@.remaining)
        &&& (self@.pending ==> self@.remaining.len() > 0 && self@.remaining[0] is Name
            && self@.top_is_dir)
    }

    /// Begin a walk over an already-lexed component list with a full
    /// symlink budget. The engine starts at the root, which is a
    /// directory; a path that restarts at the root therefore begins
    /// exactly where it already stands.
    pub fn new(comps: Vec<Component>, no_symlinks: bool, no_follow_trailing: bool) -> (w:
        Walker)
        requires
            comps_wf(comps_view(comps@)),
        ensures
            w.wf(),
            w@ == (WSpec {
                remaining: comps_view(comps@),
                budget: MAX_SYMLINK_TRAVERSALS as nat,
                top_is_dir: true,
                no_symlinks: no_symlinks,
                no_follow_trailing: no_follow_trailing,
                pending: false,
            }),
    {
        Walker {
            no_symlinks,
            no_follow_trailing,
            remaining: comps,
            budget: MAX_SYMLINK_TRAVERSALS,
            top_is_dir: true,
            pending: false,
        }
    }

    /// The unresolved remainder, rendered as a path.
    ///
    /// After a partial stop this is the suffix that did not resolve,
    /// beginning with the component that failed.
    pub fn remaining_path(&self) -> (r: Vec<u8>)
        requires
            self.wf(),
        ensures
            r@ == crate::path::join(self@.remaining),
    {
        crate::path::join_components(&self.remaining)
    }

    /// Ask the engine for the next action. `at_root` says whether the
    /// embedder's stack currently holds only the root.
    pub fn advance(&mut self, at_root: bool) -> (step: Step)
        requires
            old(self).wf(),
            !old(self)@.pending,
        ensures
            final(self).wf(),
            advance_post(old(self)@, final(self)@, at_root, step@),
    {
        if self.remaining.len() == 0 {
            return Step::Complete;
        }
        if !self.top_is_dir {
            return Step::Partial { errno: ENOTDIR };
        }
        let is_dotdot = matches!(&self.remaining[0], Component::DotDot);
        if is_dotdot {
            self.remaining.remove(0);
            proof {
                assert(comps_view(self.remaining@) =~= comps_view(
                    old(self).remaining@,
                ).skip(1));
            }
            if at_root {
                Step::Clamped
            } else {
                Step::Ascend
            }
        } else {
            let name = match &self.remaining[0] {
                Component::Name(n) => vstd::slice::slice_to_vec(n.as_slice()),
                Component::DotDot => Vec::new(),
            };
            self.pending = true;
            Step::Open { name }
        }
    }

    /// Report what the [`Step::Open`] found; the engine says how to
    /// react.
    pub fn resolved(&mut self, reply: Reply) -> (flow: Flow)
        requires
            old(self).wf(),
            old(self)@.pending,
        ensures
            final(self).wf(),
            resolved_post(old(self)@, final(self)@, reply@, flow@),
    {
        self.pending = false;
        match reply {
            Reply::Dir => {
                self.remaining.remove(0);
                self.top_is_dir = true;
                proof {
                    assert(comps_view(self.remaining@) =~= comps_view(
                        old(self).remaining@,
                    ).skip(1));
                }
                Flow::Descend
            },
            Reply::NonDir => {
                self.remaining.remove(0);
                self.top_is_dir = false;
                proof {
                    assert(comps_view(self.remaining@) =~= comps_view(
                        old(self).remaining@,
                    ).skip(1));
                }
                Flow::Descend
            },
            Reply::Failed { errno } => {
                if errno == ENOENT || errno == ENOTDIR {
                    Flow::Partial { errno }
                } else {
                    Flow::Abort {
                        error: Error::OsError { operation: msg_open_component(), errno },
                    }
                }
            },
            Reply::Symlink { target } => {
                if self.no_symlinks {
                    return Flow::Abort {
                        error: Error::OsError { operation: msg_symlink_found(), errno: ELOOP },
                    };
                }
                if self.remaining.len() == 1 && self.no_follow_trailing {
                    self.remaining.remove(0);
                    self.top_is_dir = false;
                    proof {
                        assert(comps_view(self.remaining@) =~= comps_view(
                            old(self).remaining@,
                        ).skip(1));
                    }
                    return Flow::CompleteSymlink;
                }
                if self.budget == 0 {
                    return Flow::Abort { error: Error::SymlinkLoop };
                }
                if target.len() == 0 {
                    return Flow::Abort {
                        error: Error::SafetyViolation { reason: msg_empty_target() },
                    };
                }
                match lex_bytes(target.as_slice()) {
                    None => Flow::Abort {
                        error: Error::SafetyViolation { reason: msg_nul_target() },
                    },
                    Some(mut comps) => {
                        self.budget = self.budget - 1;
                        let restart = target[0] == SLASH;
                        self.remaining.remove(0);
                        let ghost rest = comps_view(self.remaining@);
                        let ghost tcomps = comps_view(comps@);
                        comps.append(&mut self.remaining);
                        self.remaining = comps;
                        self.top_is_dir = true;
                        proof {
                            assert(rest =~= comps_view(old(self).remaining@).skip(1));
                            assert(comps_view(self.remaining@) =~= tcomps + rest);
                            assert(comps_wf(comps_view(self.remaining@)));
                        }
                        if restart {
                            Flow::RestartRoot
                        } else {
                            Flow::DropChild
                        }
                    },
                }
            },
        }
    }
}

/// The bytes of `"open path component"`.
fn msg_open_component() -> Vec<u8> {
    let mut v: Vec<u8> = Vec::new();
    v.push(111);
    v.push(112);
    v.push(101);
    v.push(110);
    v.push(32);
    v.push(112);
    v.push(97);
    v.push(116);
    v.push(104);
    v.push(32);
    v.push(99);
    v.push(111);
    v.push(109);
    v.push(112);
    v.push(111);
    v.push(110);
    v.push(101);
    v.push(110);
    v.push(116);
    v
}

/// The bytes of `"symlink rejected by flags"`.
fn msg_symlink_found() -> Vec<u8> {
    let mut v: Vec<u8> = Vec::new();
    v.push(115);
    v.push(121);
    v.push(109);
    v.push(108);
    v.push(105);
    v.push(110);
    v.push(107);
    v.push(32);
    v.push(114);
    v.push(101);
    v.push(106);
    v.push(101);
    v.push(99);
    v.push(116);
    v.push(101);
    v.push(100);
    v.push(32);
    v.push(98);
    v.push(121);
    v.push(32);
    v.push(102);
    v.push(108);
    v.push(97);
    v.push(103);
    v.push(115);
    v
}

/// The bytes of `"empty symlink target"`.
fn msg_empty_target() -> Vec<u8> {
    let mut v: Vec<u8> = Vec::new();
    v.push(101);
    v.push(109);
    v.push(112);
    v.push(116);
    v.push(121);
    v.push(32);
    v.push(115);
    v.push(121);
    v.push(109);
    v.push(108);
    v.push(105);
    v.push(110);
    v.push(107);
    v.push(32);
    v.push(116);
    v.push(97);
    v.push(114);
    v.push(103);
    v.push(101);
    v.push(116);
    v
}

/// The bytes of `"NUL in symlink target"`.
fn msg_nul_target() -> Vec<u8> {
    let mut v: Vec<u8> = Vec::new();
    v.push(78);
    v.push(85);
    v.push(76);
    v.push(32);
    v.push(105);
    v.push(110);
    v.push(32);
    v.push(115);
    v.push(121);
    v.push(109);
    v.push(108);
    v.push(105);
    v.push(110);
    v.push(107);
    v.push(32);
    v.push(116);
    v.push(97);
    v.push(114);
    v.push(103);
    v.push(101);
    v.push(116);
    v
}

} // verus!
