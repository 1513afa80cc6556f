//! Lexing and logical normalization of paths.
//!
//! A path is a byte string. Lexing splits it on `/`, discards empty
//! tokens and `.`, turns `..` into [`Component::DotDot`] and keeps
//! every other token as a plain name. A leading `/` does not make the
//! path absolute with respect to the system root: the resolver treats
//! it as "restart at the configured root".
//!
//! Logical normalization ([`canonicalize`]) folds the component list
//! into a stack of names, popping on `..` and clamping at the root,
//! which mirrors exactly what the resolution engine does to its
//! descriptor stack.

use vstd::prelude::*;

use crate::error::Error;

verus! {

/// The byte `/`.
pub const SLASH: u8 = 47;
/// The byte `.`.
pub const DOT: u8 = 46;

/// One lexed path component.
#[derive(Debug)]
pub enum Component {
    /// `..`: pop one level, clamped at the root.
    DotDot,
    /// A plain directory-entry name.
    Name(Vec<u8>),
}

/// Spec-level image of a [`Component`].
pub enum GComp {
    DotDot,
    Name(Seq<u8>),
}

impl View for Component {
    type V = GComp;

    open spec fn view(&self) -> GComp {
        match self {
            Component::DotDot => GComp::DotDot,
            Component::Name(n) => GComp::Name(n@),
        }
    }
}

/// The spec-level image of a component list.
pub open spec fn comps_view(cs: Seq<Component>) -> Seq<GComp> {
    cs.map_values(|c: Component| c@)
}

/// A name that may stand in a directory: non-empty, no separator, no
/// NUL, and not one of the two special tokens.
pub open spec fn name_wf(n: Seq<u8>) -> bool {
    &&& n.len() > 0
    &&& !n.contains(SLASH)
    &&& !n.contains(0)
    &&& n != seq![DOT]
    &&& n != seq![DOT, DOT]
}

/// Well-formedness of a lexed component.
pub open spec fn comp_wf(c: GComp) -> bool {
    match c {
        GComp::DotDot => true,
        GComp::Name(n) => name_wf(n),
    }
}

/// Well-formedness of a whole component list.
pub open spec fn comps_wf(cs: Seq<GComp>) -> bool {
    forall|i: int| 0 <= i < cs.len() ==> comp_wf(#[trigger] cs[i])
}

/// The components a single separator-free token contributes.
pub open spec fn token_comps(tok: Seq<u8>) -> Seq<GComp> {
    if tok.len() == 0 || tok == seq![DOT] {
        seq![]
    } else if tok == seq![DOT, DOT] {
        seq![GComp::DotDot]
    } else {
        seq![GComp::Name(tok)]
    }
}

/// Lexing of the unread suffix `s`, with `acc` holding the bytes of
/// the token read so far.
pub open spec fn lex_from(s: Seq<u8>, acc: Seq<u8>) -> Seq<GComp>
    decreases s.len(),
{
    if s.len() == 0 {
        token_comps(acc)
    } else if s[0] == SLASH {
        token_comps(acc) + lex_from(s.skip(1), seq![])
    } else {
        lex_from(s.skip(1), acc.push(s[0]))
    }
}

/// The component list of a path.
pub open spec fn lex(s: Seq<u8>) -> Seq<GComp> {
    lex_from(s, seq![])
}

/// A path the interface accepts: non-empty and free of NUL bytes.
pub open spec fn path_ok(s: Seq<u8>) -> bool {
    s.len() > 0 && !s.contains(0)
}

/// A lexed path: whether it restarts at the root, and its components.
pub struct ParsedPath {
    /// The path began with `/`; resolution restarts at the root.
    pub absolute: bool,
    /// The lexed components, in walk order.
    pub comps: Vec<Component>,
}

/// Lex a caller-supplied path.
///
/// Rejects the empty path and any path holding a NUL byte with
/// `InvalidArgument`; accepts everything else.
pub fn parse_path(bytes: &[u8]) -> (r: Result<ParsedPath, Error>)
    ensures
        match r {
            Ok(p) => {
                &&& path_ok(bytes@)
                &&& p.absolute == (bytes@[0] == SLASH)
                &&& comps_view(p.comps@) == lex(bytes@)
                &&& comps_wf(comps_view(p.comps@))
            },
            Err(e) => {
                &&& !path_ok(bytes@)
                &&& e.kind_spec() == crate::error::ErrorKind::InvalidArgument
            },
        },
{
    if bytes.len() == 0 {
        return Err(empty_path_error());
    }
    match lex_bytes(bytes) {
        Some(comps) => Ok(ParsedPath { absolute: bytes[0] == SLASH, comps }),
        None => Err(nul_byte_error()),
    }
}

/// Lex a byte string that is already known to be non-empty; `None`
/// when a NUL byte is found.
///
/// This is also how the resolution engine lexes symlink targets.
pub fn lex_bytes(bytes: &[u8]) -> (r: Option<Vec<Component>>)
    ensures
        match r {
            Some(comps) => {
                &&& !bytes@.contains(0)
                &&& comps_view(comps@) == lex(bytes@)
                &&& comps_wf(comps_view(comps@))
            },
            None => bytes@.contains(0),
        },
{
    let mut comps: Vec<Component> = Vec::new();
    let mut cur: Vec<u8> = Vec::new();
    let mut i: usize = 0;
    proof {
        assert(bytes@.skip(0) =~= bytes@);
        assert(comps_view(comps@) =~= Seq::<GComp>::empty());
        assert(comps_view(comps@) + lex(bytes@) =~= lex(bytes@));
    }
    while i < bytes.len()
        invariant
            0 <= i <= bytes@.len(),
            forall|j: int| 0 <= j < i ==> bytes@[j] != 0,
            !cur@.contains(SLASH),
            !cur@.contains(0),
            comps_view(comps@) + lex_from(bytes@.skip(i as int), cur@) == lex(bytes@),
            comps_wf(comps_view(comps@)),
        decreases bytes@.len() - i,
    {
        let b = bytes[i];
        if b == 0 {
            assert(bytes@.contains(0)) by {
                assert(bytes@[i as int] == 0);
            }
            return None;
        }
        proof {
            assert(bytes@.skip(i as int)[0] == b);
            assert(bytes@.skip(i as int).skip(1) =~= bytes@.skip(i as int + 1));
        }
        if b == SLASH {
            push_token(&mut comps, &mut cur);
        } else {
            let ghost old_cur = cur@;
            cur.push(b);
            proof {
                assert(cur@ =~= old_cur.push(b));
                assert(!cur@.contains(SLASH)) by {
                    assert(forall|j: int|
                        0 <= j < cur@.len() - 1 ==> cur@[j] == old_cur[j] && cur@[j] != SLASH);
                }
                assert(!cur@.contains(0)) by {
                    assert(forall|j: int|
                        0 <= j < cur@.len() - 1 ==> cur@[j] == old_cur[j] && cur@[j] != 0);
                }
            }
        }
        i = i + 1;
    }
    proof {
        assert(bytes@.skip(i as int) =~= Seq::<u8>::empty());
    }
    push_token(&mut comps, &mut cur);
    assert(comps_view(comps@) =~= comps_view(comps@) + lex_from(Seq::empty(), Seq::empty()));
    Some(comps)
}

/// Append the component (if any) that the finished token `cur`
/// contributes, and clear `cur`.
fn push_token(comps: &mut Vec<Component>, cur: &mut Vec<u8>) -> (r: ())
    requires
        !old(cur)@.contains(SLASH),
        !old(cur)@.contains(0),
    ensures
        comps_view(final(comps)@) == comps_view(old(comps)@) + token_comps(old(cur)@),
        comps_wf(comps_view(old(comps)@)) ==> comps_wf(comps_view(final(comps)@)),
        final(cur)@ == Seq::<u8>::empty(),
{
    let ghost tok = cur@;
    let is_dot = cur.len() == 1 && cur[0] == DOT;
    let is_dotdot = cur.len() == 2 && cur[0] == DOT && cur[1] == DOT;
    proof {
        if cur@.len() == 1 {
            assert(cur@ == seq![DOT] <==> cur@[0] == DOT) by {
                if cur@[0] == DOT {
                    assert(cur@ =~= seq![DOT]);
                }
            }
            assert(cur@ != seq![DOT, DOT]);
        }
        if cur@.len() == 2 {
            assert(cur@ != seq![DOT]);
            assert(cur@ == seq![DOT, DOT] <==> (cur@[0] == DOT && cur@[1] == DOT)) by {
                if cur@[0] == DOT && cur@[1] == DOT {
                    assert(cur@ =~= seq![DOT, DOT]);
                }
            }
        }
        if cur@.len() != 1 {
            assert(cur@ != seq![DOT]);
        }
        if cur@.len() != 2 {
            assert(cur@ != seq![DOT, DOT]);
        }
    }
    if cur.len() == 0 || is_dot {
        cur.clear();
        assert(comps_view(comps@) =~= comps_view(comps@) + token_comps(tok));
        return;
    }
    let ghost old_comps = comps@;
    if is_dotdot {
        comps.push(Component::DotDot);
        cur.clear();
        proof {
            assert(comps@ =~= old_comps.push(Component::DotDot));
            assert(comps_view(comps@) =~= comps_view(old_comps) + token_comps(tok));
        }
    } else {
        let mut name: Vec<u8> = Vec::new();
        core::mem::swap(&mut name, cur);
        comps.push(Component::Name(name));
        proof {
            assert(name_wf(tok));
            assert(comps_view(comps@) =~= comps_view(old_comps) + token_comps(tok));
        }
    }
}

/// Logical normalization: fold components into a stack of names,
/// `..` popping one name and clamping at the (empty) root.
pub open spec fn canon_from(stack: Seq<Seq<u8>>, comps: Seq<GComp>) -> Seq<Seq<u8>>
    decreases comps.len(),
{
    if comps.len() == 0 {
        stack
    } else {
        match comps[0] {
            GComp::DotDot => canon_from(
                if stack.len() == 0 {
                    stack
                } else {
                    stack.drop_last()
                },
                comps.skip(1),
            ),
            GComp::Name(n) => canon_from(stack.push(n), comps.skip(1)),
        }
    }
}

/// The canonical name stack of a component list.
pub open spec fn canon(comps: Seq<GComp>) -> Seq<Seq<u8>> {
    canon_from(Seq::empty(), comps)
}

/// Plain names as components.
pub open spec fn names_comps(names: Seq<Seq<u8>>) -> Seq<GComp> {
    names.map_values(|n: Seq<u8>| GComp::Name(n))
}

/// Normalize a path logically: collapse separators, drop `.`, apply
/// `..` with the root clamp. The result is the canonical names joined
/// with `/`, or `"."` when nothing remains.
pub fn canonicalize(path: &[u8]) -> (r: Result<Vec<u8>, Error>)
    ensures
        match r {
            Ok(out) => path_ok(path@) && {
                let names = canon(lex(path@));
                if names.len() == 0 {
                    out@ == seq![DOT]
                } else {
                    out@ == join(names_comps(names))
                }
            },
            Err(e) => {
                &&& !path_ok(path@)
                &&& e.kind_spec() == crate::error::ErrorKind::InvalidArgument
            },
        },
{
    let parsed = match parse_path(path) {
        Ok(p) => p,
        Err(e) => {
            return Err(e);
        },
    };
    let comps = parsed.comps;
    let ghost full = comps_view(comps@);
    let mut stack: Vec<Component> = Vec::new();
    let mut i: usize = 0;
    proof {
        assert(full.skip(0) =~= full);
        assert(names_of(stack@) =~= Seq::<Seq<u8>>::empty());
    }
    while i < comps.len()
        invariant
            0 <= i <= comps@.len(),
            full == comps_view(comps@),
            forall|j: int| 0 <= j < stack@.len() ==> (#[trigger] stack@[j]) is Name,
            canon_from(names_of(stack@), full.skip(i as int)) == canon(full),
        decreases comps@.len() - i,
    {
        let ghost names = names_of(stack@);
        proof {
            assert(full.skip(i as int)[0] == full[i as int]);
            assert(full.skip(i as int).skip(1) =~= full.skip(i as int + 1));
        }
        match &comps[i] {
            Component::DotDot => {
                let _ = stack.pop();
                proof {
                    if names.len() == 0 {
                        assert(names_of(stack@) =~= names);
                    } else {
                        assert(names_of(stack@) =~= names.drop_last());
                    }
                }
            },
            Component::Name(n) => {
                stack.push(Component::Name(vstd::slice::slice_to_vec(n.as_slice())));
                proof {
                    assert(names_of(stack@) =~= names.push(n@));
                }
            },
        }
        i = i + 1;
    }
    proof {
        assert(full.skip(i as int) =~= Seq::<GComp>::empty());
    }
    if stack.len() == 0 {
        let out: Vec<u8> = vec![DOT];
        return Ok(out);
    }
    let out = join_components(&stack);
    proof {
        assert(comps_view(stack@) =~= names_comps(names_of(stack@)));
    }
    Ok(out)
}

/// The name each component of an all-name list carries.
pub open spec fn names_of(cs: Seq<Component>) -> Seq<Seq<u8>> {
    cs.map_values(
        |c: Component|
            match c@ {
                GComp::Name(n) => n,
                GComp::DotDot => Seq::empty(),
            },
    )
}

/// The bytes a component contributes when a path is rendered.
pub open spec fn comp_bytes(c: GComp) -> Seq<u8> {
    match c {
        GComp::DotDot => seq![DOT, DOT],
        GComp::Name(n) => n,
    }
}

/// Rendering of a component list, with a leading separator when
/// `need_sep` is set.
pub open spec fn join_pre(cs: Seq<GComp>, need_sep: bool) -> Seq<u8>
    decreases cs.len(),
{
    if cs.len() == 0 {
        seq![]
    } else {
        (if need_sep {
            seq![SLASH]
        } else {
            Seq::empty()
        }) + comp_bytes(cs[0]) + join_pre(cs.skip(1), true)
    }
}

/// A component list rendered as a path: components joined with `/`.
pub open spec fn join(cs: Seq<GComp>) -> Seq<u8> {
    join_pre(cs, false)
}

/// Render a component list as a path, components joined with `/`.
pub fn join_components(comps: &Vec<Component>) -> (r: Vec<u8>)
    ensures
        r@ == join(comps_view(comps@)),
{
    let ghost full = comps_view(comps@);
    let mut out: Vec<u8> = Vec::new();
    let mut i: usize = 0;
    proof {
        assert(full.skip(0) =~= full);
        assert(out@ + join_pre(full, false) =~= join_pre(full, false));
    }
    while i < comps.len()
        invariant
            0 <= i <= comps@.len(),
            full == comps_view(comps@),
            out@ + join_pre(full.skip(i as int), i != 0) == join_pre(full, false),
        decreases comps@.len() - i,
    {
        let ghost before = out@;
        let ghost tail = full.skip(i as int);
        if i != 0 {
            out.push(SLASH);
        }
        match &comps[i] {
            Component::DotDot => {
                out.push(DOT);
                out.push(DOT);
            },
            Component::Name(n) => {
                let mut bytes = vstd::slice::slice_to_vec(n.as_slice());
                out.append(&mut bytes);
            },
        }
        proof {
            assert(tail[0] == full[i as int]);
            assert(tail.skip(1) =~= full.skip(i as int + 1));
            assert(out@ =~= before + (if i != 0 {
                seq![SLASH]
            } else {
                Seq::<u8>::empty()
            }) + comp_bytes(tail[0]));
            assert(out@ + join_pre(full.skip(i as int + 1), true) =~= before + join_pre(
                tail,
                i != 0,
            ));
        }
        i = i + 1;
    }
    proof {
        assert(full.skip(i as int) =~= Seq::<GComp>::empty());
        assert(out@ =~= out@ + join_pre(Seq::<GComp>::empty(), i != 0));
    }
    out
}

/// The error for an empty path.
fn empty_path_error() -> (e: Error)
    ensures
        e.kind_spec() == crate::error::ErrorKind::InvalidArgument,
{
    Error::InvalidArgument { field: byte_msg_path(), reason: byte_msg_empty() }
}

/// The error for a path holding a NUL byte.
fn nul_byte_error() -> (e: Error)
    ensures
        e.kind_spec() == crate::error::ErrorKind::InvalidArgument,
{
    Error::InvalidArgument { field: byte_msg_path(), reason: byte_msg_nul() }
}

/// The bytes of `"path"`.
fn byte_msg_path() -> Vec<u8> {
    let mut v: Vec<u8> = Vec::new();
    v.push(112);
    v.push(97);
    v.push(116);
    v.push(104);
    v
}

/// The bytes of `"empty"`.
fn byte_msg_empty() -> Vec<u8> {
    let mut v: Vec<u8> = Vec::new();
    v.push(101);
    v.push(109);
    v.push(112);
    v.push(116);
    v.push(121);
    v
}

/// The bytes of `"embedded NUL"`.
fn byte_msg_nul() -> Vec<u8> {
    let mut v: Vec<u8> = Vec::new();
    v.push(101);
    v.push(109);
    v.push(98);
    v.push(101);
    v.push(100);
    v.push(100);
    v.push(101);
    v.push(100);
    v.push(32);
    v.push(78);
    v.push(85);
    v.push(76);
    v
}

} // verus!
