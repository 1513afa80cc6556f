//! Laws of the resolution semantics.
//!
//! Each proof function here states a guarantee of [`crate::fsmodel::walk_fs`]
//! — and therefore, through the contracts of
//! [`crate::fsmodel::MemFs::resolve_at`] and the engine it drives, of
//! every resolution: a resolved node is reachable inside the root's
//! subtree, `..` can never climb out of the root, and a long enough
//! symlink chain always exhausts the budget.

use vstd::prelude::*;

use crate::error::ErrorKind;
use crate::fsmodel::{resolve_spec, walk_fs, EntrySpec, FsSpec, WalkRes};
use crate::path::{
    canon, canon_from, comps_wf, join, join_pre, lex, lex_from, name_wf, names_comps, token_comps,
    GComp, DOT, SLASH,
};
use crate::MAX_SYMLINK_TRAVERSALS;

verus! {

/// The node a completed resolution came to.
pub open spec fn complete_node(r: WalkRes) -> int
    recommends
        r is Complete,
{
    match r {
        WalkRes::Complete { node } => node,
        _ => 0,
    }
}

/// `b` hangs directly under directory `a`.
pub open spec fn linked_step(fs: FsSpec, a: int, b: int) -> bool {
    exists|n: Seq<u8>|
        fs.entries.contains_key((a, n)) && fs.entries[(a, n)] == EntrySpec::Dir { id: b }
}

/// Consecutive elements are parent directory and subdirectory.
pub open spec fn dir_chain(fs: FsSpec, stack: Seq<int>) -> bool {
    forall|i: int| 0 <= i < stack.len() - 1 ==> linked_step(fs, #[trigger] stack[i], stack[i + 1])
}

/// The identity a directory entry resolves to.
pub open spec fn entry_node(e: EntrySpec) -> int {
    match e {
        EntrySpec::Dir { id } => id,
        EntrySpec::File { id } => id,
        EntrySpec::Symlink { id, .. } => id,
    }
}

/// `node` lies inside the subtree of `root`: it is the root itself,
/// or a directory entry reachable from the root by descending
/// directory entries only.
pub open spec fn node_in_root(fs: FsSpec, root: int, node: int) -> bool {
    ||| node == root
    ||| exists|stack: Seq<int>, n: Seq<u8>|
        {
            &&& stack.len() >= 1
            &&& stack[0] == root
            &&& dir_chain(fs, stack)
            &&& fs.entries.contains_key((stack.last(), n))
            &&& entry_node(fs.entries[(stack.last(), n)]) == node
        }
}

/// A descriptor stack a walk can hold: bottom the root, every step a
/// directory descent; when the top is not a directory it is a direct
/// entry of the directory below it.
pub open spec fn stack_ok(fs: FsSpec, root: int, stack: Seq<int>, top_is_dir: bool) -> bool {
    &&& stack.len() >= 1
    &&& stack[0] == root
    &&& if top_is_dir {
        dir_chain(fs, stack)
    } else {
        &&& stack.len() >= 2
        &&& dir_chain(fs, stack.take(stack.len() - 1))
        &&& exists|n: Seq<u8>|
            #[trigger] fs.entries.contains_key((stack[stack.len() - 2], n)) && entry_node(
                fs.entries[(stack[stack.len() - 2], n)],
            ) == stack.last()
    }
}

/// Any node a well-formed stack ends in lies inside the root.
proof fn lemma_stack_top_in_root(fs: FsSpec, root: int, stack: Seq<int>, top_is_dir: bool)
    requires
        stack_ok(fs, root, stack, top_is_dir),
    ensures
        node_in_root(fs, root, stack.last()),
{
    if stack.len() == 1 {
        assert(stack.last() == root);
    } else if top_is_dir {
        let prefix = stack.take(stack.len() - 1);
        assert(linked_step(fs, stack[stack.len() - 2], stack[stack.len() - 1]));
        let n2 = choose|n2: Seq<u8>|
            #[trigger] fs.entries.contains_key((stack[stack.len() - 2], n2)) && fs.entries[(
                stack[stack.len() - 2],
                n2,
            )] == EntrySpec::Dir { id: stack.last() };
        assert(prefix.len() >= 1 && prefix[0] == root);
        assert(dir_chain(fs, prefix)) by {
            assert(forall|i: int|
                0 <= i < prefix.len() - 1 ==> linked_step(fs, #[trigger] prefix[i], prefix[i + 1]))
                by {
                assert(forall|i: int|
                    0 <= i < prefix.len() - 1 ==> prefix[i] == stack[i] && prefix[i + 1] == stack[i
                        + 1] && linked_step(fs, #[trigger] stack[i], stack[i + 1]));
            }
        }
        assert(prefix.last() == stack[stack.len() - 2]);
        assert(entry_node(fs.entries[(prefix.last(), n2)]) == stack.last());
    } else {
        let prefix = stack.take(stack.len() - 1);
        let n = choose|n: Seq<u8>|
            #[trigger] fs.entries.contains_key((stack[stack.len() - 2], n)) && entry_node(
                fs.entries[(stack[stack.len() - 2], n)],
            ) == stack.last();
        assert(prefix.last() == stack[stack.len() - 2]);
        assert(fs.entries.contains_key((prefix.last(), n)) && entry_node(
            fs.entries[(prefix.last(), n)],
        ) == stack.last());
    }
}

/// A walk from a well-formed stack only completes at nodes inside the
/// root's subtree.
proof fn lemma_walk_in_root(
    fs: FsSpec,
    root: int,
    stack: Seq<int>,
    remaining: Seq<GComp>,
    budget: nat,
    top_is_dir: bool,
    no_symlinks: bool,
    no_follow_trailing: bool,
)
    requires
        stack_ok(fs, root, stack, top_is_dir),
        walk_fs(fs, root, stack, remaining, budget, top_is_dir, no_symlinks, no_follow_trailing)
            is Complete,
    ensures
        node_in_root(
            fs,
            root,
            complete_node(
                walk_fs(
                    fs,
                    root,
                    stack,
                    remaining,
                    budget,
                    top_is_dir,
                    no_symlinks,
                    no_follow_trailing,
                ),
            ),
        ),
    decreases budget, remaining.len(),
{
    if remaining.len() == 0 {
        lemma_stack_top_in_root(fs, root, stack, top_is_dir);
    } else if !top_is_dir {
        // the walk is partial, not complete
    } else {
        match remaining[0] {
            GComp::DotDot => {
                if stack.len() <= 1 {
                    lemma_walk_in_root(
                        fs,
                        root,
                        stack,
                        remaining.skip(1),
                        budget,
                        true,
                        no_symlinks,
                        no_follow_trailing,
                    );
                } else {
                    let popped = stack.drop_last();
                    assert(stack_ok(fs, root, popped, true)) by {
                        assert(forall|i: int|
                            0 <= i < popped.len() - 1 ==> popped[i] == stack[i] && popped[i + 1]
                                == stack[i + 1] && linked_step(fs, #[trigger] stack[i], stack[i
                                + 1]));
                    }
                    lemma_walk_in_root(
                        fs,
                        root,
                        popped,
                        remaining.skip(1),
                        budget,
                        true,
                        no_symlinks,
                        no_follow_trailing,
                    );
                }
            },
            GComp::Name(n) => {
                if !fs.entries.contains_key((stack.last(), n)) {
                    // partial
                } else {
                    let e = fs.entries[(stack.last(), n)];
                    match e {
                        EntrySpec::Dir { id } => {
                            let pushed = stack.push(id);
                            assert(stack_ok(fs, root, pushed, true)) by {
                                assert(linked_step(fs, stack.last(), id));
                                assert(forall|i: int|
                                    0 <= i < pushed.len() - 1 ==> linked_step(
                                        fs,
                                        #[trigger] pushed[i],
                                        pushed[i + 1],
                                    )) by {
                                    assert(forall|i: int|
                                        0 <= i < stack.len() - 1 ==> pushed[i] == stack[i]
                                            && pushed[i + 1] == stack[i + 1] && linked_step(
                                            fs,
                                            #[trigger] stack[i],
                                            stack[i + 1],
                                        ));
                                    assert(pushed[pushed.len() - 2] == stack.last() && pushed[
                                        pushed.len() - 1] == id);
                                }
                            }
                            lemma_walk_in_root(
                                fs,
                                root,
                                pushed,
                                remaining.skip(1),
                                budget,
                                true,
                                no_symlinks,
                                no_follow_trailing,
                            );
                        },
                        EntrySpec::File { id } => {
                            let pushed = stack.push(id);
                            assert(stack_ok(fs, root, pushed, false)) by {
                                assert(pushed.take(pushed.len() - 1) =~= stack);
                                assert(pushed[pushed.len() - 2] == stack.last());
                                assert(entry_node(fs.entries[(stack.last(), n)]) == id);
                            }
                            lemma_walk_in_root(
                                fs,
                                root,
                                pushed,
                                remaining.skip(1),
                                budget,
                                false,
                                no_symlinks,
                                no_follow_trailing,
                            );
                        },
                        EntrySpec::Symlink { id, target } => {
                            if no_symlinks {
                                // fails
                            } else if remaining.len() == 1 && no_follow_trailing {
                                assert(entry_node(fs.entries[(stack.last(), n)]) == id);
                                assert(node_in_root(fs, root, id)) by {
                                    if top_is_dir {
                                        assert(dir_chain(fs, stack));
                                    }
                                }
                            } else if budget == 0 {
                                // fails
                            } else if target.len() == 0 || target.contains(0) {
                                // fails
                            } else {
                                if target[0] == SLASH {
                                    assert(stack_ok(fs, root, seq![root], true));
                                    lemma_walk_in_root(
                                        fs,
                                        root,
                                        seq![root],
                                        lex(target) + remaining.skip(1),
                                        (budget - 1) as nat,
                                        true,
                                        no_symlinks,
                                        no_follow_trailing,
                                    );
                                } else {
                                    lemma_walk_in_root(
                                        fs,
                                        root,
                                        stack,
                                        lex(target) + remaining.skip(1),
                                        (budget - 1) as nat,
                                        true,
                                        no_symlinks,
                                        no_follow_trailing,
                                    );
                                }
                            }
                        },
                    }
                }
            },
        }
    }
}

/// A successful resolution never escapes the root: the resolved node
/// is the root itself or reachable from it by descending directory
/// entries alone.
pub proof fn lemma_resolution_in_root(
    fs: FsSpec,
    root: int,
    path: Seq<u8>,
    no_symlinks: bool,
    no_follow_trailing: bool,
)
    requires
        resolve_spec(fs, root, path, no_symlinks, no_follow_trailing) is Complete,
    ensures
        node_in_root(
            fs,
            root,
            complete_node(resolve_spec(fs, root, path, no_symlinks, no_follow_trailing)),
        ),
{
    assert(stack_ok(fs, root, seq![root], true));
    lemma_walk_in_root(
        fs,
        root,
        seq![root],
        lex(path),
        MAX_SYMLINK_TRAVERSALS as nat,
        true,
        no_symlinks,
        no_follow_trailing,
    );
}

/// A walk whose components are all `..` stays at the bottom of a
/// one-element stack and completes there.
proof fn lemma_clamp_rec(
    fs: FsSpec,
    root: int,
    remaining: Seq<GComp>,
    budget: nat,
    no_symlinks: bool,
    no_follow_trailing: bool,
)
    requires
        forall|i: int| 0 <= i < remaining.len() ==> remaining[i] is DotDot,
    ensures
        walk_fs(fs, root, seq![root], remaining, budget, true, no_symlinks, no_follow_trailing)
            == (WalkRes::Complete { node: root }),
    decreases remaining.len(),
{
    if remaining.len() == 0 {
        assert(seq![root].last() == root);
    } else {
        assert(remaining[0] is DotDot);
        assert(seq![root].len() <= 1);
        lemma_clamp_rec(fs, root, remaining.skip(1), budget, no_symlinks, no_follow_trailing);
    }
}

/// Root-clamp: a path consisting only of `..` components resolves to
/// the root itself, whatever the filesystem holds.
pub proof fn lemma_root_clamp(
    fs: FsSpec,
    root: int,
    path: Seq<u8>,
    no_symlinks: bool,
    no_follow_trailing: bool,
)
    requires
        forall|i: int| 0 <= i < lex(path).len() ==> lex(path)[i] is DotDot,
    ensures
        resolve_spec(fs, root, path, no_symlinks, no_follow_trailing) == (WalkRes::Complete {
            node: root,
        }),
{
    lemma_clamp_rec(fs, root, lex(path), MAX_SYMLINK_TRAVERSALS as nat, no_symlinks,
        no_follow_trailing);
}

/// Lexing a separator-free suffix only grows the pending token.
proof fn lemma_lex_no_slash(s: Seq<u8>, acc: Seq<u8>)
    requires
        !s.contains(SLASH),
    ensures
        lex_from(s, acc) == token_comps(acc + s),
    decreases s.len(),
{
    if s.len() == 0 {
        assert(acc + s =~= acc);
    } else {
        assert(s[0] != SLASH) by {
            assert(s.contains(s[0]) == false || true);
            if s[0] == SLASH {
                assert(s.contains(SLASH));
            }
        }
        assert(!s.skip(1).contains(SLASH)) by {
            if s.skip(1).contains(SLASH) {
                let j = choose|j: int| 0 <= j < s.skip(1).len() && s.skip(1)[j] == SLASH;
                assert(s[j + 1] == SLASH);
                assert(s.contains(SLASH));
            }
        }
        lemma_lex_no_slash(s.skip(1), acc.push(s[0]));
        assert(acc.push(s[0]) + s.skip(1) =~= acc + s);
    }
}

/// A well-formed name lexes to itself, alone.
pub proof fn lemma_lex_single_name(n: Seq<u8>)
    requires
        name_wf(n),
    ensures
        lex(n) == seq![GComp::Name(n)],
{
    lemma_lex_no_slash(n, Seq::empty());
    assert(Seq::<u8>::empty() + n =~= n);
}

/// The target of the symlink entry `name` of directory `d`, when it
/// is one.
pub open spec fn sym_target(fs: FsSpec, d: int, name: Seq<u8>) -> Seq<u8> {
    match fs.entries[(d, name)] {
        EntrySpec::Symlink { target, .. } => target,
        _ => Seq::empty(),
    }
}

/// A chain of symlinks hanging off `root`: entry `names[i]` is a
/// symlink whose target is the (well-formed, relative) name
/// `names[i+1]`, for every link index.
pub open spec fn symlink_chain(fs: FsSpec, root: int, names: Seq<Seq<u8>>) -> bool {
    forall|i: int|
        0 <= i < names.len() - 1 ==> {
            &&& name_wf(#[trigger] names[i + 1])
            &&& fs.entries.contains_key((root, names[i]))
            &&& fs.entries[(root, names[i])] is Symlink
            &&& sym_target(fs, root, names[i]) == names[i + 1]
        }
}

/// Starting at link `i` of a chain with `budget` expansions left, a
/// chain that still has more links than the budget ends in
/// `SymlinkLoop`.
proof fn lemma_chain_rec(
    fs: FsSpec,
    root: int,
    names: Seq<Seq<u8>>,
    i: int,
    budget: nat,
)
    requires
        symlink_chain(fs, root, names),
        0 <= i,
        i + budget <= names.len() - 2,
    ensures
        walk_fs(fs, root, seq![root], seq![GComp::Name(names[i])], budget, true, false, false)
            == (WalkRes::Fail { kind: ErrorKind::SymlinkLoop }),
    decreases budget,
{
    let stack = seq![root];
    let remaining = seq![GComp::Name(names[i])];
    assert(name_wf(names[i + 1]));
    assert(fs.entries.contains_key((root, names[i])));
    assert(fs.entries[(root, names[i])] is Symlink);
    let target = sym_target(fs, root, names[i]);
    assert(target == names[i + 1]);
    assert(name_wf(target));
    assert(target.len() > 0 && !target.contains(0));
    assert(target[0] != SLASH) by {
        if target[0] == SLASH {
            assert(target.contains(SLASH));
        }
    }
    if budget == 0 {
        assert(walk_fs(fs, root, stack, remaining, budget, true, false, false) == (WalkRes::Fail {
            kind: ErrorKind::SymlinkLoop,
        }));
    } else {
        lemma_lex_single_name(target);
        assert(lex(target) + remaining.skip(1) =~= seq![GComp::Name(names[i + 1])]);
        lemma_chain_rec(fs, root, names, i + 1, (budget - 1) as nat);
    }
}

/// A symlink chain longer than the budget is always detected: when
/// more than [`MAX_SYMLINK_TRAVERSALS`] expansions would be needed,
/// resolution fails with `SymlinkLoop`.
pub proof fn lemma_symlink_chain_loop(fs: FsSpec, root: int, names: Seq<Seq<u8>>)
    requires
        symlink_chain(fs, root, names),
        names.len() >= MAX_SYMLINK_TRAVERSALS + 2,
        name_wf(names[0]),
    ensures
        resolve_spec(fs, root, names[0], false, false) == (WalkRes::Fail {
            kind: ErrorKind::SymlinkLoop,
        }),
{
    lemma_lex_single_name(names[0]);
    lemma_chain_rec(fs, root, names, 0, MAX_SYMLINK_TRAVERSALS as nat);
}

} // verus!

verus! {

/// Neither `x` nor anything in `s` changes when the head is dropped.
proof fn lemma_skip1_not_contains(s: Seq<u8>, x: u8)
    requires
        !s.contains(x),
        s.len() > 0,
    ensures
        !s.skip(1).contains(x),
        s[0] != x,
{
    if s[0] == x {
        assert(s.contains(x));
    }
    if s.skip(1).contains(x) {
        let j = choose|j: int| 0 <= j < s.skip(1).len() && s.skip(1)[j] == x;
        assert(s[j + 1] == x);
        assert(s.contains(x));
    }
}

/// Appending a byte other than `x` keeps `x` out.
proof fn lemma_push_not_contains(s: Seq<u8>, b: u8, x: u8)
    requires
        !s.contains(x),
        b != x,
    ensures
        !s.push(b).contains(x),
{
    if s.push(b).contains(x) {
        let j = choose|j: int| 0 <= j < s.push(b).len() && s.push(b)[j] == x;
        if j < s.len() {
            assert(s[j] == x);
            assert(s.contains(x));
        }
    }
}

/// The components a clean token contributes are well-formed.
proof fn lemma_token_wf(tok: Seq<u8>)
    requires
        !tok.contains(0),
        !tok.contains(SLASH),
    ensures
        comps_wf(token_comps(tok)),
{
    if tok.len() == 0 || tok == seq![DOT] {
        assert(comps_wf(token_comps(tok)));
    } else if tok == seq![DOT, DOT] {
        assert(comps_wf(seq![GComp::DotDot]));
    } else {
        assert(name_wf(tok));
        assert(comps_wf(seq![GComp::Name(tok)]));
    }
}

/// Concatenation keeps well-formedness.
proof fn lemma_comps_wf_add(a: Seq<GComp>, b: Seq<GComp>)
    requires
        comps_wf(a),
        comps_wf(b),
    ensures
        comps_wf(a + b),
{
    assert(forall|i: int|
        0 <= i < (a + b).len() ==> crate::path::comp_wf(#[trigger] (a + b)[i])) by {
        assert(forall|i: int| 0 <= i < a.len() ==> (a + b)[i] == a[i]);
        assert(forall|i: int| a.len() <= i < (a + b).len() ==> (a + b)[i] == b[i - a.len()]);
    }
}

/// Lexing a NUL-free suffix with a clean pending token yields only
/// well-formed components.
proof fn lemma_lex_from_wf(s: Seq<u8>, acc: Seq<u8>)
    requires
        !s.contains(0),
        !acc.contains(0),
        !acc.contains(SLASH),
    ensures
        comps_wf(lex_from(s, acc)),
    decreases s.len(),
{
    if s.len() == 0 {
        lemma_token_wf(acc);
    } else if s[0] == SLASH {
        lemma_skip1_not_contains(s, 0);
        lemma_token_wf(acc);
        lemma_lex_from_wf(s.skip(1), Seq::empty());
        lemma_comps_wf_add(token_comps(acc), lex_from(s.skip(1), Seq::empty()));
    } else {
        lemma_skip1_not_contains(s, 0);
        lemma_push_not_contains(acc, s[0], 0);
        lemma_push_not_contains(acc, s[0], SLASH);
        lemma_lex_from_wf(s.skip(1), acc.push(s[0]));
    }
}

/// Lexing a NUL-free path yields only well-formed components.
pub proof fn lemma_lex_wf(s: Seq<u8>)
    requires
        !s.contains(0),
    ensures
        comps_wf(lex(s)),
{
    lemma_lex_from_wf(s, Seq::empty());
}

/// Normalization of well-formed components onto a stack of
/// well-formed names yields only well-formed names.
proof fn lemma_canon_wf_rec(stack: Seq<Seq<u8>>, comps: Seq<GComp>)
    requires
        forall|i: int| 0 <= i < stack.len() ==> name_wf(#[trigger] stack[i]),
        comps_wf(comps),
    ensures
        forall|i: int|
            0 <= i < canon_from(stack, comps).len() ==> name_wf(
                #[trigger] canon_from(stack, comps)[i],
            ),
    decreases comps.len(),
{
    if comps.len() == 0 {
        assert(canon_from(stack, comps) == stack);
    } else {
        assert(comps_wf(comps.skip(1))) by {
            assert(forall|i: int|
                0 <= i < comps.skip(1).len() ==> comps.skip(1)[i] == comps[i + 1]
                    && crate::path::comp_wf(#[trigger] comps[i + 1]));
        }
        match comps[0] {
            GComp::DotDot => {
                if stack.len() == 0 {
                    lemma_canon_wf_rec(stack, comps.skip(1));
                    assert(canon_from(stack, comps) == canon_from(stack, comps.skip(1)));
                } else {
                    assert(forall|i: int|
                        0 <= i < stack.drop_last().len() ==> stack.drop_last()[i] == stack[i]
                            && name_wf(#[trigger] stack[i]));
                    lemma_canon_wf_rec(stack.drop_last(), comps.skip(1));
                    assert(canon_from(stack, comps) == canon_from(
                        stack.drop_last(),
                        comps.skip(1),
                    ));
                }
            },
            GComp::Name(n) => {
                assert(crate::path::comp_wf(comps[0]));
                assert(forall|i: int|
                    0 <= i < stack.push(n).len() ==> name_wf(#[trigger] stack.push(n)[i])) by {
                    assert(forall|i: int|
                        0 <= i < stack.len() ==> stack.push(n)[i] == stack[i] && name_wf(
                            #[trigger] stack[i],
                        ));
                    assert(stack.push(n)[stack.len() as int] == n);
                }
                lemma_canon_wf_rec(stack.push(n), comps.skip(1));
                assert(canon_from(stack, comps) == canon_from(stack.push(n), comps.skip(1)));
            },
        }
    }
}

/// Lexing a separator-free prefix just grows the pending token.
proof fn lemma_lex_from_append(a: Seq<u8>, b: Seq<u8>, acc: Seq<u8>)
    requires
        !a.contains(SLASH),
    ensures
        lex_from(a + b, acc) == lex_from(b, acc + a),
    decreases a.len(),
{
    if a.len() == 0 {
        assert(a + b =~= b);
        assert(acc + a =~= acc);
    } else {
        lemma_skip1_not_contains(a, SLASH);
        assert((a + b)[0] == a[0]);
        assert((a + b).len() > 0);
        assert((a + b).skip(1) =~= a.skip(1) + b);
        lemma_lex_from_append(a.skip(1), b, acc.push(a[0]));
        assert(acc.push(a[0]) + a.skip(1) =~= acc + a);
    }
}

/// With a separator owed, rendering just prepends one.
proof fn lemma_join_pre_sep(cs: Seq<GComp>)
    requires
        cs.len() >= 1,
    ensures
        join_pre(cs, true) == seq![SLASH] + join_pre(cs, false),
{
    assert(join_pre(cs, true) =~= seq![SLASH] + join_pre(cs, false));
}

/// Rendering well-formed names and lexing the result gives the names
/// back.
proof fn lemma_lex_join(names: Seq<Seq<u8>>)
    requires
        names.len() >= 1,
        forall|i: int| 0 <= i < names.len() ==> name_wf(#[trigger] names[i]),
    ensures
        lex(join(names_comps(names))) == names_comps(names),
    decreases names.len(),
{
    let cs = names_comps(names);
    assert(cs[0] == GComp::Name(names[0]));
    assert(crate::path::comp_bytes(cs[0]) == names[0]);
    if names.len() == 1 {
        assert(cs.skip(1).len() == 0);
        assert(join_pre(cs.skip(1), true) == Seq::<u8>::empty());
        assert(join(cs) =~= names[0]);
        lemma_lex_single_name(names[0]);
        assert(cs =~= seq![GComp::Name(names[0])]);
    } else {
        let rest = names_comps(names.skip(1));
        assert(cs.skip(1) =~= rest);
        lemma_join_pre_sep(rest);
        let restjoin = join_pre(rest, false);
        assert(join(cs) =~= names[0] + (seq![SLASH] + restjoin));
        lemma_lex_from_append(names[0], seq![SLASH] + restjoin, Seq::empty());
        assert(Seq::<u8>::empty() + names[0] =~= names[0]);
        assert((seq![SLASH] + restjoin)[0] == SLASH);
        assert((seq![SLASH] + restjoin).skip(1) =~= restjoin);
        assert(token_comps(names[0]) == seq![GComp::Name(names[0])]) by {
            assert(name_wf(names[0]));
        }
        assert(forall|i: int|
            0 <= i < names.skip(1).len() ==> name_wf(#[trigger] names.skip(1)[i])) by {
            assert(forall|i: int|
                0 <= i < names.skip(1).len() ==> names.skip(1)[i] == names[i + 1] && name_wf(
                    #[trigger] names[i + 1],
                ));
        }
        lemma_lex_join(names.skip(1));
        assert(lex(join(cs)) == token_comps(names[0]) + lex_from(restjoin, Seq::empty()));
        assert(seq![GComp::Name(names[0])] + rest =~= cs);
    }
}

/// No entry of the filesystem is a symlink.
pub open spec fn no_symlinks_in(fs: FsSpec) -> bool {
    forall|k: (int, Seq<u8>)|
        fs.entries.contains_key(k) ==> !((#[trigger] fs.entries[k]) is Symlink)
}

/// A chain of directory descents: following `names[i]` from `ids[i]`
/// reaches directory `ids[i + 1]`.
pub open spec fn ids_chain(fs: FsSpec, names: Seq<Seq<u8>>, ids: Seq<int>) -> bool {
    &&& ids.len() == names.len() + 1
    &&& forall|i: int|
        0 <= i < names.len() ==> fs.entries.contains_key((ids[i], #[trigger] names[i]))
            && fs.entries[(ids[i], names[i])] == (EntrySpec::Dir { id: ids[i + 1] })
}

/// Walking a plain descent chain completes at its end, with any
/// budget and any flags.
proof fn lemma_walk_plain(
    fs: FsSpec,
    root: int,
    stack0: Seq<int>,
    names: Seq<Seq<u8>>,
    ids: Seq<int>,
    budget: nat,
    no_symlinks: bool,
    no_follow_trailing: bool,
)
    requires
        stack0.len() >= 1,
        ids_chain(fs, names, ids),
        ids[0] == stack0.last(),
    ensures
        walk_fs(fs, root, stack0, names_comps(names), budget, true, no_symlinks,
            no_follow_trailing) == (WalkRes::Complete { node: ids.last() }),
    decreases names.len(),
{
    if names.len() == 0 {
        assert(names_comps(names) =~= Seq::<GComp>::empty());
    } else {
        assert(names_comps(names)[0] == GComp::Name(names[0]));
        assert(fs.entries.contains_key((ids[0], names[0])));
        assert(fs.entries[(stack0.last(), names[0])] == (EntrySpec::Dir { id: ids[1] }));
        assert(names_comps(names).skip(1) =~= names_comps(names.skip(1)));
        assert(ids_chain(fs, names.skip(1), ids.skip(1))) by {
            assert(forall|i: int|
                0 <= i < names.skip(1).len() ==> names.skip(1)[i] == names[i + 1] && ids.skip(1)[i]
                    == ids[i + 1] && ids.skip(1)[i + 1] == ids[i + 2]
                    && fs.entries.contains_key((ids[i + 1], #[trigger] names[i + 1]))
                    && fs.entries[(ids[i + 1], names[i + 1])] == (EntrySpec::Dir {
                    id: ids[i + 2],
                }));
        }
        assert(stack0.push(ids[1]).last() == ids[1]);
        lemma_walk_plain(
            fs,
            root,
            stack0.push(ids[1]),
            names.skip(1),
            ids.skip(1),
            budget,
            no_symlinks,
            no_follow_trailing,
        );
        assert(ids.skip(1).last() == ids.last());
    }
}

/// Walking a plain descent chain and then one more (non-symlink)
/// entry completes at that entry's node.
proof fn lemma_walk_plain_then(
    fs: FsSpec,
    root: int,
    stack0: Seq<int>,
    names: Seq<Seq<u8>>,
    ids: Seq<int>,
    nf: Seq<u8>,
    budget: nat,
    no_symlinks: bool,
    no_follow_trailing: bool,
)
    requires
        stack0.len() >= 1,
        ids_chain(fs, names, ids),
        ids[0] == stack0.last(),
        fs.entries.contains_key((ids.last(), nf)),
        !(fs.entries[(ids.last(), nf)] is Symlink),
    ensures
        walk_fs(fs, root, stack0, names_comps(names.push(nf)), budget, true, no_symlinks,
            no_follow_trailing) == (WalkRes::Complete {
            node: entry_node(fs.entries[(ids.last(), nf)]),
        }),
    decreases names.len(),
{
    if names.len() == 0 {
        let rem = names_comps(names.push(nf));
        assert(rem =~= seq![GComp::Name(nf)]);
        assert(rem[0] == GComp::Name(nf));
        assert(rem.skip(1) =~= Seq::<GComp>::empty());
        assert(ids.last() == stack0.last());
        match fs.entries[(stack0.last(), nf)] {
            EntrySpec::Dir { id } => {
                assert(stack0.push(id).last() == id);
                assert(walk_fs(fs, root, stack0.push(id), rem.skip(1), budget, true, no_symlinks,
                    no_follow_trailing) == (WalkRes::Complete { node: id }));
            },
            EntrySpec::File { id } => {
                assert(stack0.push(id).last() == id);
                assert(walk_fs(fs, root, stack0.push(id), rem.skip(1), budget, false, no_symlinks,
                    no_follow_trailing) == (WalkRes::Complete { node: id }));
            },
            EntrySpec::Symlink { .. } => {
                assert(false);
            },
        }
    } else {
        assert(names.push(nf)[0] == names[0]);
        assert(names_comps(names.push(nf))[0] == GComp::Name(names[0]));
        assert(fs.entries.contains_key((ids[0], names[0])));
        assert(fs.entries[(stack0.last(), names[0])] == (EntrySpec::Dir { id: ids[1] }));
        assert(names_comps(names.push(nf)).skip(1) =~= names_comps(names.skip(1).push(nf))) by {
            assert(names.push(nf).skip(1) =~= names.skip(1).push(nf));
        }
        assert(ids_chain(fs, names.skip(1), ids.skip(1))) by {
            assert(forall|i: int|
                0 <= i < names.skip(1).len() ==> names.skip(1)[i] == names[i + 1] && ids.skip(1)[i]
                    == ids[i + 1] && ids.skip(1)[i + 1] == ids[i + 2]
                    && fs.entries.contains_key((ids[i + 1], #[trigger] names[i + 1]))
                    && fs.entries[(ids[i + 1], names[i + 1])] == (EntrySpec::Dir {
                    id: ids[i + 2],
                }));
        }
        assert(stack0.push(ids[1]).last() == ids[1]);
        assert(ids.skip(1).last() == ids.last());
        lemma_walk_plain_then(
            fs,
            root,
            stack0.push(ids[1]),
            names.skip(1),
            ids.skip(1),
            nf,
            budget,
            no_symlinks,
            no_follow_trailing,
        );
    }
}

/// Over a symlink-free filesystem, a completed walk agrees with the
/// walk of its canonical name stack, from the root, under any budget.
proof fn lemma_walk_canon_rec(
    fs: FsSpec,
    root: int,
    names: Seq<Seq<u8>>,
    stack: Seq<int>,
    comps: Seq<GComp>,
    budget: nat,
    budget2: nat,
    no_symlinks: bool,
    no_follow_trailing: bool,
)
    requires
        no_symlinks_in(fs),
        stack.len() == names.len() + 1,
        stack[0] == root,
        ids_chain(fs, names, stack),
        walk_fs(fs, root, stack, comps, budget, true, no_symlinks, no_follow_trailing)
            is Complete,
    ensures
        walk_fs(fs, root, seq![root], names_comps(canon_from(names, comps)), budget2, true,
            no_symlinks, no_follow_trailing) == walk_fs(fs, root, stack, comps, budget, true,
            no_symlinks, no_follow_trailing),
    decreases comps.len(),
{
    let whole = walk_fs(fs, root, stack, comps, budget, true, no_symlinks, no_follow_trailing);
    if comps.len() == 0 {
        assert(canon_from(names, comps) == names);
        assert(seq![root].last() == root);
        lemma_walk_plain(fs, root, seq![root], names, stack, budget2, no_symlinks,
            no_follow_trailing);
        assert(whole == (WalkRes::Complete { node: stack.last() }));
        assert(stack.last() == stack[stack.len() - 1]);
    } else {
        match comps[0] {
            GComp::DotDot => {
                if stack.len() <= 1 {
                    assert(names.len() == 0);
                    assert(whole == walk_fs(fs, root, stack, comps.skip(1), budget, true,
                        no_symlinks, no_follow_trailing));
                    assert(canon_from(names, comps) == canon_from(names, comps.skip(1)));
                    lemma_walk_canon_rec(fs, root, names, stack, comps.skip(1), budget, budget2,
                        no_symlinks, no_follow_trailing);
                } else {
                    assert(names.len() >= 1);
                    assert(stack.drop_last()[0] == root);
                    assert(ids_chain(fs, names.drop_last(), stack.drop_last())) by {
                        assert(forall|i: int|
                            0 <= i < names.drop_last().len() ==> names.drop_last()[i] == names[i]
                                && stack.drop_last()[i] == stack[i] && stack.drop_last()[i + 1]
                                == stack[i + 1] && fs.entries.contains_key(
                                (stack[i], #[trigger] names[i]),
                            ) && fs.entries[(stack[i], names[i])] == (EntrySpec::Dir {
                                id: stack[i + 1],
                            }));
                    }
                    assert(whole == walk_fs(fs, root, stack.drop_last(), comps.skip(1), budget,
                        true, no_symlinks, no_follow_trailing));
                    assert(canon_from(names, comps) == canon_from(
                        names.drop_last(),
                        comps.skip(1),
                    ));
                    lemma_walk_canon_rec(fs, root, names.drop_last(), stack.drop_last(),
                        comps.skip(1), budget, budget2, no_symlinks, no_follow_trailing);
                }
            },
            GComp::Name(n) => {
                if !fs.entries.contains_key((stack.last(), n)) {
                    assert(whole == (WalkRes::Partial {
                        stack,
                        remaining: comps,
                        errno: crate::error::ENOENT as int,
                    }));
                    assert(false);
                } else {
                    let e = fs.entries[(stack.last(), n)];
                    assert(stack.last() == stack[stack.len() - 1]);
                    match e {
                        EntrySpec::Dir { id } => {
                            assert(stack.push(id)[0] == root);
                            assert(ids_chain(fs, names.push(n), stack.push(id))) by {
                                assert(forall|i: int|
                                    0 <= i < names.len() ==> names.push(n)[i] == names[i]
                                        && stack.push(id)[i] == stack[i] && stack.push(id)[i + 1]
                                        == stack[i + 1] && fs.entries.contains_key(
                                        (stack[i], #[trigger] names[i]),
                                    ) && fs.entries[(stack[i], names[i])] == (EntrySpec::Dir {
                                        id: stack[i + 1],
                                    }));
                                assert(names.push(n)[names.len() as int] == n);
                                assert(stack.push(id)[names.len() as int] == stack.last());
                                assert(stack.push(id)[names.len() as int + 1] == id);
                            }
                            assert(whole == walk_fs(fs, root, stack.push(id), comps.skip(1),
                                budget, true, no_symlinks, no_follow_trailing));
                            assert(canon_from(names, comps) == canon_from(
                                names.push(n),
                                comps.skip(1),
                            ));
                            lemma_walk_canon_rec(fs, root, names.push(n), stack.push(id),
                                comps.skip(1), budget, budget2, no_symlinks, no_follow_trailing);
                        },
                        EntrySpec::File { id } => {
                            assert(whole == walk_fs(fs, root, stack.push(id), comps.skip(1),
                                budget, false, no_symlinks, no_follow_trailing));
                            if comps.skip(1).len() == 0 {
                                assert(stack.push(id).last() == id);
                                assert(whole == (WalkRes::Complete { node: id }));
                                assert(canon_from(names, comps) == canon_from(
                                    names.push(n),
                                    comps.skip(1),
                                ));
                                assert(canon_from(names.push(n), comps.skip(1)) == names.push(n));
                                assert(seq![root].last() == root);
                                lemma_walk_plain_then(fs, root, seq![root], names, stack, n,
                                    budget2, no_symlinks, no_follow_trailing);
                                assert(entry_node(e) == id);
                            } else {
                                assert(whole == (WalkRes::Partial {
                                    stack: stack.push(id),
                                    remaining: comps.skip(1),
                                    errno: crate::error::ENOTDIR as int,
                                }));
                                assert(false);
                            }
                        },
                        EntrySpec::Symlink { .. } => {
                            assert(false);
                        },
                    }
                }
            },
        }
    }
}

/// Resolving a path and resolving its canonical form agree, over a
/// symlink-free filesystem, whenever the former succeeds.
///
/// (A symlink along the path breaks this: with `s` a symlink to
/// `a/b` under the root, `s/../c` resolves to `a/c` while its
/// canonical form `c` resolves under the root.)
pub proof fn lemma_canonical_resolve(
    fs: FsSpec,
    root: int,
    path: Seq<u8>,
    canon_path: Seq<u8>,
    no_symlinks: bool,
    no_follow_trailing: bool,
)
    requires
        no_symlinks_in(fs),
        !path.contains(0),
        resolve_spec(fs, root, path, no_symlinks, no_follow_trailing) is Complete,
        canon_path == if canon(lex(path)).len() == 0 {
            seq![DOT]
        } else {
            join(names_comps(canon(lex(path))))
        },
    ensures
        resolve_spec(fs, root, canon_path, no_symlinks, no_follow_trailing) == resolve_spec(
            fs,
            root,
            path,
            no_symlinks,
            no_follow_trailing,
        ),
{
    lemma_lex_wf(path);
    let names = canon(lex(path));
    lemma_canon_wf_rec(Seq::empty(), lex(path));
    assert(ids_chain(fs, Seq::empty(), seq![root]));
    lemma_walk_canon_rec(
        fs,
        root,
        Seq::empty(),
        seq![root],
        lex(path),
        MAX_SYMLINK_TRAVERSALS as nat,
        MAX_SYMLINK_TRAVERSALS as nat,
        no_symlinks,
        no_follow_trailing,
    );
    if names.len() == 0 {
        assert(lex(canon_path) =~= Seq::<GComp>::empty()) by {
            assert(canon_path.len() == 1 && canon_path[0] == DOT);
            assert(canon_path.skip(1) =~= Seq::<u8>::empty());
            assert(lex_from(canon_path, Seq::empty()) == lex_from(
                canon_path.skip(1),
                Seq::<u8>::empty().push(DOT),
            ));
            assert(Seq::<u8>::empty().push(DOT) =~= seq![DOT]);
            assert(token_comps(seq![DOT]) =~= Seq::<GComp>::empty());
        }
        assert(names_comps(names) =~= Seq::<GComp>::empty());
    } else {
        lemma_lex_join(names);
    }
}

} // verus!

verus! {

/// A lookup that stops early always carries a non-empty unresolved
/// suffix.
proof fn lemma_walk_partial_nonempty(
    fs: FsSpec,
    root: int,
    stack: Seq<int>,
    remaining: Seq<GComp>,
    budget: nat,
    top_is_dir: bool,
    no_symlinks: bool,
    no_follow_trailing: bool,
)
    requires
        walk_fs(fs, root, stack, remaining, budget, top_is_dir, no_symlinks, no_follow_trailing)
            is Partial,
    ensures
        match walk_fs(
            fs,
            root,
            stack,
            remaining,
            budget,
            top_is_dir,
            no_symlinks,
            no_follow_trailing,
        ) {
            WalkRes::Partial { remaining: rem, .. } => rem.len() > 0,
            _ => true,
        },
    decreases budget, remaining.len(),
{
    if remaining.len() == 0 {
    } else if !top_is_dir {
    } else {
        match remaining[0] {
            GComp::DotDot => {
                if stack.len() <= 1 {
                    lemma_walk_partial_nonempty(fs, root, stack, remaining.skip(1), budget, true,
                        no_symlinks, no_follow_trailing);
                } else {
                    lemma_walk_partial_nonempty(fs, root, stack.drop_last(), remaining.skip(1),
                        budget, true, no_symlinks, no_follow_trailing);
                }
            },
            GComp::Name(n) => {
                if !fs.entries.contains_key((stack.last(), n)) {
                } else {
                    match fs.entries[(stack.last(), n)] {
                        EntrySpec::Dir { id } => {
                            lemma_walk_partial_nonempty(fs, root, stack.push(id),
                                remaining.skip(1), budget, true, no_symlinks, no_follow_trailing);
                        },
                        EntrySpec::File { id } => {
                            lemma_walk_partial_nonempty(fs, root, stack.push(id),
                                remaining.skip(1), budget, false, no_symlinks,
                                no_follow_trailing);
                        },
                        EntrySpec::Symlink { target, .. } => {
                            if no_symlinks {
                            } else if remaining.len() == 1 && no_follow_trailing {
                            } else if budget == 0 {
                            } else if target.len() == 0 || target.contains(0) {
                            } else {
                                lemma_walk_partial_nonempty(
                                    fs,
                                    root,
                                    if target[0] == SLASH {
                                        seq![root]
                                    } else {
                                        stack
                                    },
                                    lex(target) + remaining.skip(1),
                                    (budget - 1) as nat,
                                    true,
                                    no_symlinks,
                                    no_follow_trailing,
                                );
                            }
                        },
                    }
                }
            },
        }
    }
}

/// A resolution that stops early always carries a non-empty
/// unresolved suffix alongside the deepest ancestor that resolved.
pub proof fn lemma_partial_suffix_nonempty(
    fs: FsSpec,
    root: int,
    path: Seq<u8>,
    no_symlinks: bool,
    no_follow_trailing: bool,
)
    requires
        resolve_spec(fs, root, path, no_symlinks, no_follow_trailing) is Partial,
    ensures
        match resolve_spec(fs, root, path, no_symlinks, no_follow_trailing) {
            WalkRes::Partial { remaining, stack, .. } => remaining.len() > 0 && stack.len() >= 1,
            _ => true,
        },
{
    lemma_walk_partial_nonempty(
        fs,
        root,
        seq![root],
        lex(path),
        MAX_SYMLINK_TRAVERSALS as nat,
        true,
        no_symlinks,
        no_follow_trailing,
    );
    lemma_walk_partial_stack(
        fs,
        root,
        seq![root],
        lex(path),
        MAX_SYMLINK_TRAVERSALS as nat,
        true,
        no_symlinks,
        no_follow_trailing,
    );
}

/// The stack a partial lookup stops with is never empty.
proof fn lemma_walk_partial_stack(
    fs: FsSpec,
    root: int,
    stack: Seq<int>,
    remaining: Seq<GComp>,
    budget: nat,
    top_is_dir: bool,
    no_symlinks: bool,
    no_follow_trailing: bool,
)
    requires
        stack.len() >= 1,
        walk_fs(fs, root, stack, remaining, budget, top_is_dir, no_symlinks, no_follow_trailing)
            is Partial,
    ensures
        match walk_fs(
            fs,
            root,
            stack,
            remaining,
            budget,
            top_is_dir,
            no_symlinks,
            no_follow_trailing,
        ) {
            WalkRes::Partial { stack: st, .. } => st.len() >= 1,
            _ => true,
        },
    decreases budget, remaining.len(),
{
    if remaining.len() == 0 {
    } else if !top_is_dir {
    } else {
        match remaining[0] {
            GComp::DotDot => {
                if stack.len() <= 1 {
                    lemma_walk_partial_stack(fs, root, stack, remaining.skip(1), budget, true,
                        no_symlinks, no_follow_trailing);
                } else {
                    lemma_walk_partial_stack(fs, root, stack.drop_last(), remaining.skip(1),
                        budget, true, no_symlinks, no_follow_trailing);
                }
            },
            GComp::Name(n) => {
                if !fs.entries.contains_key((stack.last(), n)) {
                } else {
                    match fs.entries[(stack.last(), n)] {
                        EntrySpec::Dir { id } => {
                            lemma_walk_partial_stack(fs, root, stack.push(id), remaining.skip(1),
                                budget, true, no_symlinks, no_follow_trailing);
                        },
                        EntrySpec::File { id } => {
                            lemma_walk_partial_stack(fs, root, stack.push(id), remaining.skip(1),
                                budget, false, no_symlinks, no_follow_trailing);
                        },
                        EntrySpec::Symlink { target, .. } => {
                            if no_symlinks {
                            } else if remaining.len() == 1 && no_follow_trailing {
                            } else if budget == 0 {
                            } else if target.len() == 0 || target.contains(0) {
                            } else {
                                lemma_walk_partial_stack(
                                    fs,
                                    root,
                                    if target[0] == SLASH {
                                        seq![root]
                                    } else {
                                        stack
                                    },
                                    lex(target) + remaining.skip(1),
                                    (budget - 1) as nat,
                                    true,
                                    no_symlinks,
                                    no_follow_trailing,
                                );
                            }
                        },
                    }
                }
            },
        }
    }
}

} // verus!

verus! {

/// A `..` while standing at the root changes nothing: a leading `..`
/// component is simply elided. Together with [`lemma_root_clamp`]
/// this pins the root-clamp behavior of any leading run of `..`.
pub proof fn lemma_leading_dotdot_elided(
    fs: FsSpec,
    root: int,
    rest: Seq<GComp>,
    budget: nat,
    no_symlinks: bool,
    no_follow_trailing: bool,
)
    ensures
        walk_fs(fs, root, seq![root], seq![GComp::DotDot] + rest, budget, true, no_symlinks,
            no_follow_trailing) == walk_fs(fs, root, seq![root], rest, budget, true, no_symlinks,
            no_follow_trailing),
{
    assert((seq![GComp::DotDot] + rest)[0] == GComp::DotDot);
    assert((seq![GComp::DotDot] + rest).skip(1) =~= rest);
}

} // verus!
