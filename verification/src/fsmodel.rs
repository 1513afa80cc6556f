//! A filesystem model, and resolution over it.
//!
//! [`FsSpec`] is the mathematical picture the resolution contracts
//! speak of: directory entries keyed by `(directory, name)`, each a
//! subdirectory, a non-directory, or a symlink with target bytes.
//! [`walk_fs`] is the meaning of a resolution over such a picture —
//! the single definition both backends implement.
//!
//! [`MemFs`] is an executable instance: a directory tree held in
//! memory. [`MemFs::resolve_partial_at`] drives the engine of
//! [`crate::walker`] over it and is proved to return exactly what
//! [`walk_fs`] says, which ties the engine's step-by-step contracts to
//! the declarative meaning.

use vstd::prelude::*;

use crate::error::{Error, ErrorKind, ELOOP, ENOENT, ENOTDIR};
use crate::path::{comps_wf, lex, parse_path, path_ok, join, GComp, SLASH};
use crate::resolvers::PartialLookup;
use crate::walker::{Flow, Reply, Step, Walker};
use crate::MAX_SYMLINK_TRAVERSALS;

verus! {

/// A directory entry, spec level. Every node carries an identity; a
/// directory's identity indexes the directory table.
pub enum EntrySpec {
    /// A subdirectory.
    Dir { id: int },
    /// A non-directory, non-symlink inode.
    File { id: int },
    /// A symlink with the given target bytes.
    Symlink { id: int, target: Seq<u8> },
}

/// A filesystem, spec level: entries keyed by directory identity and
/// name.
pub struct FsSpec {
    pub entries: Map<(int, Seq<u8>), EntrySpec>,
}

/// The result a resolution over a filesystem picture comes to.
pub enum WalkRes {
    /// Every component resolved; `node` is the resolved identity.
    Complete { node: int },
    /// Resolution stopped early: `stack` is the identities of the
    /// resolved prefix (bottom: the root), `remaining` the unresolved
    /// suffix, `errno` why its first component did not resolve.
    Partial { stack: Seq<int>, remaining: Seq<GComp>, errno: int },
    /// Resolution failed outright.
    Fail { kind: ErrorKind },
}

/// The meaning of a resolution step sequence over `fs`, beginning
/// with the descriptor stack `stack` (bottom: the root of identity
/// `root`), the unread components `remaining` and `budget` symlink
/// expansions left. `top_is_dir` says whether the top of the stack is
/// a directory.
pub open spec fn walk_fs(
    fs: FsSpec,
    root: int,
    stack: Seq<int>,
    remaining: Seq<GComp>,
    budget: nat,
    top_is_dir: bool,
    no_symlinks: bool,
    no_follow_trailing: bool,
) -> WalkRes
    decreases budget, remaining.len(),
{
    if remaining.len() == 0 {
        WalkRes::Complete { node: stack.last() }
    } else if !top_is_dir {
        WalkRes::Partial { stack, remaining, errno: ENOTDIR as int }
    } else {
        match remaining[0] {
            GComp::DotDot => {
                if stack.len() <= 1 {
                    walk_fs(
                        fs,
                        root,
                        stack,
                        remaining.skip(1),
                        budget,
                        true,
                        no_symlinks,
                        no_follow_trailing,
                    )
                } else {
                    walk_fs(
                        fs,
                        root,
                        stack.drop_last(),
                        remaining.skip(1),
                        budget,
                        true,
                        no_symlinks,
                        no_follow_trailing,
                    )
                }
            },
            GComp::Name(n) => {
                if !fs.entries.contains_key((stack.last(), n)) {
                    WalkRes::Partial { stack, remaining, errno: ENOENT as int }
                } else {
                    match fs.entries[(stack.last(), n)] {
                        EntrySpec::Dir { id } => walk_fs(
                            fs,
                            root,
                            stack.push(id),
                            remaining.skip(1),
                            budget,
                            true,
                            no_symlinks,
                            no_follow_trailing,
                        ),
                        EntrySpec::File { id } => walk_fs(
                            fs,
                            root,
                            stack.push(id),
                            remaining.skip(1),
                            budget,
                            false,
                            no_symlinks,
                            no_follow_trailing,
                        ),
                        EntrySpec::Symlink { id, target } => {
                            if no_symlinks {
                                WalkRes::Fail { kind: ErrorKind::OsError(ELOOP) }
                            } else if remaining.len() == 1 && no_follow_trailing {
                                WalkRes::Complete { node: id }
                            } else if budget == 0 {
                                WalkRes::Fail { kind: ErrorKind::SymlinkLoop }
                            } else if target.len() == 0 || target.contains(0) {
                                WalkRes::Fail { kind: ErrorKind::SafetyViolation }
                            } else {
                                walk_fs(
                                    fs,
                                    root,
                                    if target[0] == SLASH {
                                        seq![root]
                                    } else {
                                        stack
                                    },
                                    lex(target) + remaining.skip(1),
                                    (budget - 1) as nat,
                                    true,
                                    no_symlinks,
                                    no_follow_trailing,
                                )
                            }
                        },
                    }
                }
            },
        }
    }
}

/// The meaning of resolving `path` against root `root` of `fs`.
pub open spec fn resolve_spec(
    fs: FsSpec,
    root: int,
    path: Seq<u8>,
    no_symlinks: bool,
    no_follow_trailing: bool,
) -> WalkRes {
    walk_fs(
        fs,
        root,
        seq![root],
        lex(path),
        MAX_SYMLINK_TRAVERSALS as nat,
        true,
        no_symlinks,
        no_follow_trailing,
    )
}

/// A directory entry held in memory.
pub enum MemEntry {
    /// A subdirectory; `id` indexes [`MemFs::dirs`].
    Dir { id: usize },
    /// A non-directory, non-symlink inode with identity `id`.
    File { id: usize },
    /// A symlink with identity `id` and the given target bytes.
    Symlink { id: usize, target: Vec<u8> },
}

impl View for MemEntry {
    type V = EntrySpec;

    open spec fn view(&self) -> EntrySpec {
        match self {
            MemEntry::Dir { id } => EntrySpec::Dir { id: *id as int },
            MemEntry::File { id } => EntrySpec::File { id: *id as int },
            MemEntry::Symlink { id, target } => EntrySpec::Symlink {
                id: *id as int,
                target: target@,
            },
        }
    }
}

/// A named directory entry held in memory.
pub struct MemDirEnt {
    /// The entry's name within its directory.
    pub name: Vec<u8>,
    /// The entry itself.
    pub entry: MemEntry,
}

/// A directory held in memory.
pub struct MemDir {
    /// The directory's entries, names unique.
    pub entries: Vec<MemDirEnt>,
}

/// A directory tree held in memory. Directories are identified by
/// their index in `dirs`.
pub struct MemFs {
    /// The directory table.
    pub dirs: Vec<MemDir>,
}

/// Whether `d` holds an entry of the given name.
pub open spec fn dir_has(d: MemDir, name: Seq<u8>) -> bool {
    exists|j: int| 0 <= j < d.entries.len() && d.entries[j].name@ == name
}

/// The entry of the given name in `d`.
pub open spec fn dir_at(d: MemDir, name: Seq<u8>) -> EntrySpec {
    (d.entries[choose|j: int| 0 <= j < d.entries.len() && d.entries[j].name@ == name]).entry@
}

impl View for MemFs {
    type V = FsSpec;

    open spec fn view(&self) -> FsSpec {
        FsSpec {
            entries: Map::new(
                |k: (int, Seq<u8>)|
                    0 <= k.0 < self.dirs.len() && dir_has(self.dirs[k.0], k.1),
                |k: (int, Seq<u8>)| dir_at(self.dirs[k.0], k.1),
            ),
        }
    }
}

/// Internal consistency of a directory: names are unique, and every
/// subdirectory entry points into the directory table.
pub open spec fn dir_wf(d: MemDir, n_dirs: int) -> bool {
    &&& forall|i: int, j: int|
        0 <= i < j < d.entries.len() ==> (#[trigger] d.entries[i].name@) != (
        #[trigger] d.entries[j].name@)
    &&& forall|i: int|
        0 <= i < d.entries.len() ==> match (#[trigger] d.entries[i].entry)@ {
            EntrySpec::Dir { id } => 0 <= id < n_dirs,
            _ => true,
        }
}

/// Internal consistency of the whole tree.
pub open spec fn fs_wf(fs: MemFs) -> bool {
    forall|d: int| 0 <= d < fs.dirs.len() ==> dir_wf(#[trigger] fs.dirs[d], fs.dirs.len() as int)
}

/// Byte-string equality.
fn bytes_eq(a: &[u8], b: &[u8]) -> (r: bool)
    ensures
        r == (a@ == b@),
{
    if a.len() != b.len() {
        return false;
    }
    let mut i: usize = 0;
    while i < a.len()
        invariant
            0 <= i <= a@.len(),
            a@.len() == b@.len(),
            forall|j: int| 0 <= j < i ==> a@[j] == b@[j],
        decreases a@.len() - i,
    {
        if a[i] != b[i] {
            return false;
        }
        i = i + 1;
    }
    proof {
        assert(a@ =~= b@);
    }
    true
}

/// The identities of a descriptor stack.
pub open spec fn ints_of(s: Seq<usize>) -> Seq<int> {
    s.map_values(|x: usize| x as int)
}

/// Whether an executable lookup result reports what the declarative
/// walk came to.
pub open spec fn partial_matches(res: WalkRes, pl: PartialLookup<usize>) -> bool {
    match (res, pl) {
        (WalkRes::Complete { node }, PartialLookup::Complete(h)) => h as int == node,
        (
            WalkRes::Partial { stack, remaining, errno },
            PartialLookup::Partial { handle, remaining: rem, last_error },
        ) => {
            &&& handle as int == stack.last()
            &&& rem@ == join(remaining)
            &&& last_error.kind_spec() == ErrorKind::OsError(errno as i32)
        },
        _ => false,
    }
}

/// A `Dir` entry of a well-formed tree points into the directory
/// table.
proof fn lemma_entry_dir_bound(fs: MemFs, dir: int, name: Seq<u8>)
    requires
        fs_wf(fs),
        fs@.entries.contains_key((dir, name)),
    ensures
        match fs@.entries[(dir, name)] {
            EntrySpec::Dir { id } => 0 <= id < fs.dirs.len(),
            _ => true,
        },
{
    let d = fs.dirs[dir];
    let j = choose|j: int| 0 <= j < d.entries.len() && d.entries[j].name@ == name;
    assert(dir_wf(d, fs.dirs.len() as int));
    assert(match d.entries[j].entry@ {
        EntrySpec::Dir { id } => 0 <= id < fs.dirs.len(),
        _ => true,
    });
}

impl MemFs {
    /// Look a name up in the directory of the given identity.
    pub fn lookup<'a>(&'a self, dir: usize, name: &[u8]) -> (r: Option<&'a MemEntry>)
        requires
            fs_wf(*self),
            dir < self.dirs@.len(),
        ensures
            match r {
                Some(e) => self@.entries.contains_key((dir as int, name@)) && e@
                    == self@.entries[(dir as int, name@)],
                None => !self@.entries.contains_key((dir as int, name@)),
            },
    {
        let d = &self.dirs[dir];
        let mut i: usize = 0;
        while i < d.entries.len()
            invariant
                0 <= i <= d.entries@.len(),
                d == self.dirs@[dir as int],
                fs_wf(*self),
                dir < self.dirs@.len(),
                forall|j: int| 0 <= j < i ==> (#[trigger] d.entries@[j].name@) != name@,
            decreases d.entries@.len() - i,
        {
            if bytes_eq(d.entries[i].name.as_slice(), name) {
                proof {
                    assert(dir_has(self.dirs[dir as int], name@)) by {
                        assert(d.entries[i as int].name@ == name@);
                    }
                    let j = choose|j: int|
                        0 <= j < d.entries.len() && d.entries[j].name@ == name@;
                    assert(j == i as int) by {
                        if j != i as int {
                            assert(dir_wf(self.dirs[dir as int], self.dirs.len() as int));
                        }
                    }
                }
                return Some(&d.entries[i].entry);
            }
            i = i + 1;
        }
        proof {
            if dir_has(self.dirs[dir as int], name@) {
                let j = choose|j: int| 0 <= j < d.entries.len() && d.entries[j].name@ == name@;
                assert(d.entries@[j].name@ == name@);
            }
        }
        None
    }

    /// Resolve `path` against the directory of identity `root`,
    /// stopping early at a missing entry or a non-directory: exactly
    /// what [`resolve_spec`] says the resolution comes to.
    ///
    /// This drives the engine of [`crate::walker`] the way an
    /// embedder over a live filesystem does, with the in-memory tree
    /// answering in place of the syscalls.
    pub fn resolve_partial_at(
        &self,
        root: usize,
        path: &[u8],
        no_symlinks: bool,
        no_follow_trailing: bool,
    ) -> (r: Result<PartialLookup<usize>, Error>)
        requires
            fs_wf(*self),
            root < self.dirs@.len(),
        ensures
            match r {
                Ok(pl) => path_ok(path@) && partial_matches(
                    resolve_spec(self@, root as int, path@, no_symlinks, no_follow_trailing),
                    pl,
                ),
                Err(e) => {
                    if path_ok(path@) {
                        match resolve_spec(
                            self@,
                            root as int,
                            path@,
                            no_symlinks,
                            no_follow_trailing,
                        ) {
                            WalkRes::Fail { kind } => e.kind_spec() == kind,
                            _ => false,
                        }
                    } else {
                        e.kind_spec() == ErrorKind::InvalidArgument
                    }
                },
            },
    {
        let parsed = match parse_path(path) {
            Ok(p) => p,
            Err(e) => {
                return Err(e);
            },
        };
        let ghost target = resolve_spec(self@, root as int, path@, no_symlinks, no_follow_trailing);
        let mut w = Walker::new(parsed.comps, no_symlinks, no_follow_trailing);
        let mut stack: Vec<usize> = Vec::new();
        stack.push(root);
        proof {
            assert(ints_of(stack@) =~= seq![root as int]);
        }
        loop
            invariant
                fs_wf(*self),
                root < self.dirs@.len(),
                path_ok(path@),
                target == resolve_spec(self@, root as int, path@, no_symlinks, no_follow_trailing),
                w.wf(),
                !w@.pending,
                w@.no_symlinks == no_symlinks,
                w@.no_follow_trailing == no_follow_trailing,
                stack@.len() >= 1,
                stack@[0] == root,
                forall|i: int| 0 <= i < stack@.len() - 1 ==> (#[trigger] stack@[i]) < self.dirs@.len(),
                w@.top_is_dir ==> stack@.last() < self.dirs@.len(),
                walk_fs(
                    self@,
                    root as int,
                    ints_of(stack@),
                    w@.remaining,
                    w@.budget,
                    w@.top_is_dir,
                    no_symlinks,
                    no_follow_trailing,
                ) == target,
            decreases w@.budget, w@.remaining.len(),
        {
            let ghost pre = w@;
            let ghost pre_stack = ints_of(stack@);
            let at_root = stack.len() == 1;
            match w.advance(at_root) {
                Step::Complete => {
                    return Ok(PartialLookup::Complete(stack[stack.len() - 1]));
                },
                Step::Clamped => {
                    proof {
                        assert(ints_of(stack@).len() == stack@.len());
                    }
                },
                Step::Ascend => {
                    stack.pop();
                    proof {
                        assert(ints_of(stack@) =~= pre_stack.drop_last());
                        assert(stack@.last() == stack@[stack@.len() - 1]);
                    }
                },
                Step::Partial { errno } => {
                    let handle = stack[stack.len() - 1];
                    let rem = w.remaining_path();
                    return Ok(
                        PartialLookup::Partial {
                            handle,
                            remaining: rem,
                            last_error: Error::OsError { operation: msg_walk_component(), errno },
                        },
                    );
                },
                Step::Open { name } => {
                    let top = stack[stack.len() - 1];
                    let ghost key = (top as int, name@);
                    let mut child_id: usize = 0;
                    let reply = match self.lookup(top, name.as_slice()) {
                        None => Reply::Failed { errno: ENOENT },
                        Some(e) => match e {
                            MemEntry::Dir { id } => {
                                child_id = *id;
                                Reply::Dir
                            },
                            MemEntry::File { id } => {
                                child_id = *id;
                                Reply::NonDir
                            },
                            MemEntry::Symlink { id, target } => {
                                child_id = *id;
                                Reply::Symlink {
                                    target: vstd::slice::slice_to_vec(target.as_slice()),
                                }
                            },
                        },
                    };
                    proof {
                        if self@.entries.contains_key(key) {
                            lemma_entry_dir_bound(*self, top as int, name@);
                        }
                    }
                    match w.resolved(reply) {
                        Flow::Descend => {
                            stack.push(child_id);
                            proof {
                                assert(ints_of(stack@) =~= pre_stack.push(child_id as int));
                            }
                        },
                        Flow::DropChild => {},
                        Flow::RestartRoot => {
                            stack.truncate(1);
                            proof {
                                assert(ints_of(stack@) =~= seq![root as int]);
                            }
                        },
                        Flow::CompleteSymlink => {
                            return Ok(PartialLookup::Complete(child_id));
                        },
                        Flow::Partial { errno } => {
                            let handle = stack[stack.len() - 1];
                            let rem = w.remaining_path();
                            return Ok(
                                PartialLookup::Partial {
                                    handle,
                                    remaining: rem,
                                    last_error: Error::OsError {
                                        operation: msg_walk_component(),
                                        errno,
                                    },
                                },
                            );
                        },
                        Flow::Abort { error } => {
                            return Err(error);
                        },
                    }
                },
            }
        }
    }

    /// Resolve `path` against the directory of identity `root`. A
    /// resolution that stopped early becomes the error its unresolved
    /// suffix met, exactly as [`resolve_spec`] classifies it.
    pub fn resolve_at(
        &self,
        root: usize,
        path: &[u8],
        no_symlinks: bool,
        no_follow_trailing: bool,
    ) -> (r: Result<usize, Error>)
        requires
            fs_wf(*self),
            root < self.dirs@.len(),
        ensures
            match r {
                Ok(h) => path_ok(path@) && match resolve_spec(
                    self@,
                    root as int,
                    path@,
                    no_symlinks,
                    no_follow_trailing,
                ) {
                    WalkRes::Complete { node } => h as int == node,
                    _ => false,
                },
                Err(e) => {
                    if path_ok(path@) {
                        match resolve_spec(
                            self@,
                            root as int,
                            path@,
                            no_symlinks,
                            no_follow_trailing,
                        ) {
                            WalkRes::Complete { .. } => false,
                            WalkRes::Partial { errno, .. } => e.kind_spec() == ErrorKind::OsError(
                                errno as i32,
                            ),
                            WalkRes::Fail { kind } => e.kind_spec() == kind,
                        }
                    } else {
                        e.kind_spec() == ErrorKind::InvalidArgument
                    }
                },
            },
    {
        match self.resolve_partial_at(root, path, no_symlinks, no_follow_trailing) {
            Ok(pl) => pl.try_into_handle(),
            Err(e) => Err(e),
        }
    }
}

/// The bytes of `"walk component"`.
fn msg_walk_component() -> Vec<u8> {
    let mut v: Vec<u8> = Vec::new();
    v.push(119);
    v.push(97);
    v.push(108);
    v.push(107);
    v.push(32);
    v.push(99);
    v.push(111);
    v.push(109);
    v.push(112);
    v.push(111);
    v.push(110);
    v.push(101);
    v.push(110);
    v.push(116);
    v
}

} // verus!
