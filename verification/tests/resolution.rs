use pathrs::error::{ErrorKind, ELOOP, ENOENT, ENOTDIR};
use pathrs::fsmodel::{MemDir, MemDirEnt, MemEntry, MemFs};
use pathrs::path::canonicalize;
use pathrs::resolvers::PartialLookup;

fn name(s: &str) -> Vec<u8> {
    s.as_bytes().to_vec()
}

fn ent(n: &str, e: MemEntry) -> MemDirEnt {
    MemDirEnt { name: name(n), entry: e }
}

/// The scenario tree: a root holding `a/b/c` (a file), `etc/passwd`,
/// `link -> /etc`, `up -> ../..`, and `loop -> loop`.
///
/// Directory identities: root 0, a 1, b 2, etc 3.
/// Other identities: c 100, passwd 102, link 101, up 103, loop 104.
fn scenario_fs() -> MemFs {
    MemFs {
        dirs: vec![
            MemDir {
                entries: vec![
                    ent("a", MemEntry::Dir { id: 1 }),
                    ent("etc", MemEntry::Dir { id: 3 }),
                    ent("link", MemEntry::Symlink { id: 101, target: name("/etc") }),
                    ent("up", MemEntry::Symlink { id: 103, target: name("../..") }),
                    ent("loop", MemEntry::Symlink { id: 104, target: name("loop") }),
                ],
            },
            MemDir { entries: vec![ent("b", MemEntry::Dir { id: 2 })] },
            MemDir { entries: vec![ent("c", MemEntry::File { id: 100 })] },
            MemDir { entries: vec![ent("passwd", MemEntry::File { id: 102 })] },
        ],
    }
}

#[test]
fn resolve_simple_file() {
    let fs = scenario_fs();
    assert_eq!(fs.resolve_at(0, b"a/b/c", false, false).unwrap(), 100);
}

#[test]
fn resolve_root_clamp_dotdot() {
    let fs = scenario_fs();
    // `..` past the root is clamped: this resolves inside the root,
    // never at the system's /etc/passwd.
    assert_eq!(fs.resolve_at(0, b"../../../etc/passwd", false, false).unwrap(), 102);
}

#[test]
fn resolve_root_clamp_missing() {
    // Same path against a root with no etc: ENOENT, not an escape.
    let fs = MemFs {
        dirs: vec![MemDir { entries: vec![ent("a", MemEntry::Dir { id: 1 })] }, MemDir {
            entries: vec![],
        }],
    };
    let err = fs.resolve_at(0, b"../../../etc/passwd", false, false).unwrap_err();
    assert_eq!(err.kind(), ErrorKind::OsError(ENOENT));
}

#[test]
fn resolve_all_dotdot_is_root() {
    let fs = scenario_fs();
    assert_eq!(fs.resolve_at(0, b"../../../..", false, false).unwrap(), 0);
}

#[test]
fn resolve_absolute_symlink_rerooted() {
    let fs = scenario_fs();
    // link -> /etc must resolve to the root's etc directory.
    assert_eq!(fs.resolve_at(0, b"link", false, false).unwrap(), 3);
}

#[test]
fn resolve_up_chain() {
    let fs = scenario_fs();
    // up -> ../.. clamps at the root each time.
    assert_eq!(fs.resolve_at(0, b"up/up/up/up/a", false, false).unwrap(), 1);
}

#[test]
fn resolve_self_loop() {
    let fs = scenario_fs();
    let err = fs.resolve_at(0, b"loop", false, false).unwrap_err();
    assert_eq!(err.kind(), ErrorKind::SymlinkLoop);
}

#[test]
fn resolve_partial_missing_suffix() {
    let fs = scenario_fs();
    match fs.resolve_partial_at(0, b"a/missing/x", false, false).unwrap() {
        PartialLookup::Partial { handle, remaining, last_error } => {
            assert_eq!(handle, 1);
            assert_eq!(remaining, b"missing/x".to_vec());
            assert_eq!(last_error.kind(), ErrorKind::OsError(ENOENT));
        },
        PartialLookup::Complete(_) => panic!("lookup should be partial"),
    }
}

#[test]
fn resolve_partial_complete() {
    let fs = scenario_fs();
    match fs.resolve_partial_at(0, b"a/b", false, false).unwrap() {
        PartialLookup::Complete(h) => assert_eq!(h, 2),
        PartialLookup::Partial { .. } => panic!("lookup should be complete"),
    }
}

#[test]
fn resolve_through_file_is_enotdir() {
    let fs = scenario_fs();
    let err = fs.resolve_at(0, b"a/b/c/d", false, false).unwrap_err();
    assert_eq!(err.kind(), ErrorKind::OsError(ENOTDIR));
    match fs.resolve_partial_at(0, b"a/b/c/d", false, false).unwrap() {
        PartialLookup::Partial { handle, remaining, last_error } => {
            assert_eq!(handle, 100);
            assert_eq!(remaining, b"d".to_vec());
            assert_eq!(last_error.kind(), ErrorKind::OsError(ENOTDIR));
        },
        PartialLookup::Complete(_) => panic!("lookup should be partial"),
    }
}

#[test]
fn resolve_empty_path() {
    let fs = scenario_fs();
    let err = fs.resolve_at(0, b"", false, false).unwrap_err();
    assert_eq!(err.kind(), ErrorKind::InvalidArgument);
}

#[test]
fn resolve_slash_is_root() {
    let fs = scenario_fs();
    assert_eq!(fs.resolve_at(0, b"/", false, false).unwrap(), 0);
}

#[test]
fn resolve_dot_is_root() {
    let fs = scenario_fs();
    assert_eq!(fs.resolve_at(0, b".", false, false).unwrap(), 0);
}

#[test]
fn resolve_embedded_nul() {
    let fs = scenario_fs();
    let err = fs.resolve_at(0, b"a\0b", false, false).unwrap_err();
    assert_eq!(err.kind(), ErrorKind::InvalidArgument);
}

#[test]
fn resolve_no_symlinks_flag() {
    let fs = scenario_fs();
    let err = fs.resolve_at(0, b"link", true, false).unwrap_err();
    assert_eq!(err.kind(), ErrorKind::OsError(ELOOP));
}

#[test]
fn resolve_no_follow_trailing() {
    let fs = scenario_fs();
    // The trailing symlink itself is the result.
    assert_eq!(fs.resolve_at(0, b"link", false, true).unwrap(), 101);
    // A symlink in a non-trailing position is still followed.
    assert_eq!(fs.resolve_at(0, b"link/passwd", false, true).unwrap(), 102);
}

/// A root whose entries `s0 -> s1 -> ... -> s{n-1} -> end` form a
/// symlink chain of `n` hops ending at a file.
fn chain_fs(n: usize) -> MemFs {
    let mut entries = Vec::new();
    for i in 0..n {
        let target = if i + 1 == n { name("end") } else { name(&format!("s{}", i + 1)) };
        entries.push(ent(&format!("s{}", i), MemEntry::Symlink { id: 200 + i, target }));
    }
    entries.push(ent("end", MemEntry::File { id: 999 }));
    MemFs { dirs: vec![MemDir { entries }] }
}

#[test]
fn symlink_budget_exactly_128() {
    let fs = chain_fs(128);
    assert_eq!(fs.resolve_at(0, b"s0", false, false).unwrap(), 999);
}

#[test]
fn symlink_budget_129_loops() {
    let fs = chain_fs(129);
    let err = fs.resolve_at(0, b"s0", false, false).unwrap_err();
    assert_eq!(err.kind(), ErrorKind::SymlinkLoop);
}

#[test]
fn canonicalize_examples() {
    assert_eq!(canonicalize(b"a/./b/../c//").unwrap(), b"a/c".to_vec());
    assert_eq!(canonicalize(b"../../x").unwrap(), b"x".to_vec());
    assert_eq!(canonicalize(b"../..").unwrap(), b".".to_vec());
    assert_eq!(canonicalize(b"/a//b/").unwrap(), b"a/b".to_vec());
    assert_eq!(canonicalize(b"").unwrap_err().kind(), ErrorKind::InvalidArgument);
    assert_eq!(canonicalize(b"a\0").unwrap_err().kind(), ErrorKind::InvalidArgument);
}

#[test]
fn canonical_resolution_agrees() {
    // Over a symlink-free tree, resolving a path and resolving its
    // canonical form reach the same node.
    let fs = MemFs {
        dirs: vec![
            MemDir {
                entries: vec![ent("a", MemEntry::Dir { id: 1 }), ent("d", MemEntry::File {
                    id: 300,
                })],
            },
            MemDir { entries: vec![ent("b", MemEntry::Dir { id: 2 })] },
            MemDir { entries: vec![ent("c", MemEntry::File { id: 100 })] },
        ],
    };
    for path in [
        b"a/b/../b/c".as_slice(),
        b"./a/./b/c",
        b"../a/b/c",
        b"a//b///c",
        b"a/..",
        b"a/b/..",
    ] {
        let direct = fs.resolve_at(0, path, false, false).map_err(|e| e.kind());
        let canon = canonicalize(path).unwrap();
        let via_canon = fs.resolve_at(0, &canon, false, false).map_err(|e| e.kind());
        assert_eq!(direct, via_canon, "path {:?}", String::from_utf8_lossy(path));
    }
}

#[test]
fn resolve_empty_symlink_target() {
    // A symlink with an empty target cannot come from readlink; the
    // engine treats it as an impossible state rather than walking on.
    let fs = MemFs {
        dirs: vec![MemDir {
            entries: vec![ent("bad", MemEntry::Symlink { id: 500, target: Vec::new() })],
        }],
    };
    let err = fs.resolve_at(0, b"bad", false, false).unwrap_err();
    assert_eq!(err.kind(), ErrorKind::SafetyViolation);
}
