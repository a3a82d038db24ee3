use super::ast::{Binding, BoundModel, Generic, MAX_COMPLEXITY, MAX_DEPTH};
use super::cursor::byte_at;
use super::error::Error;
use super::grammar::{
    advanced, at, base62, bindings, bounds, budget, closed, constant, continued, demangle,
    disambiguator, generic_arg, generics, ident, is_ascii, moved, path, path_backref,
    path_generic, path_impl, path_nested, produced, progressed, reserve, room, start,
    strip_prefix, type_, type_array, type_backref, type_dyn, type_fn, type_pointee, type_tuple,
    types, Ast, State,
};
use super::number::{digits_end, digits_value, lemma_digits_end};
use vstd::prelude::*;

verus! {

/// The prefix `_R`.
pub open spec fn plain_prefix() -> Seq<u8> {
    seq!['_' as u8, 'R' as u8]
}

/// The prefix `R`, which is what is left where leading underscores are
/// stripped.
pub open spec fn bare_prefix() -> Seq<u8> {
    seq!['R' as u8]
}

/// The prefix `__R`, with one underscore more.
pub open spec fn long_prefix() -> Seq<u8> {
    seq!['_' as u8, '_' as u8, 'R' as u8]
}

/// The three prefixes are told apart, and each leaves the same bytes to
/// parse: a symbol demangles alike behind any of them.
pub proof fn lemma_prefixes_agree(rest: Seq<u8>)
    ensures
        strip_prefix(plain_prefix() + rest) == Some(rest),
        strip_prefix(bare_prefix() + rest) == Some(rest),
        strip_prefix(long_prefix() + rest) == Some(rest),
        demangle(bare_prefix() + rest) == demangle(plain_prefix() + rest),
        demangle(long_prefix() + rest) == demangle(plain_prefix() + rest),
{
    let plain = plain_prefix() + rest;
    let bare = bare_prefix() + rest;
    let long = long_prefix() + rest;
    assert(plain.subrange(2, plain.len() as int) =~= rest);
    assert(bare.subrange(1, bare.len() as int) =~= rest);
    assert(long.subrange(3, long.len() as int) =~= rest);
    assert(plain[0] == '_' as u8 && plain[1] == 'R' as u8);
    assert(bare[0] == 'R' as u8);
    assert(long[0] == '_' as u8 && long[1] == '_' as u8 && long[2] == 'R' as u8);
}

/// A byte outside ASCII anywhere behind the prefix makes the symbol
/// [`Error::NotAscii`], whatever else it holds.
pub proof fn lemma_not_ascii(text: Seq<u8>, rest: Seq<u8>, i: int)
    requires
        strip_prefix(text) == Some(rest),
        0 <= i < rest.len(),
        rest[i] >= 0x80,
    ensures
        demangle(text) == Err::<Ast, Error>(Error::NotAscii),
{
    assert(!is_ascii(rest));
}

/// A backreference stands at `st.pos`, with the number `target` that ends
/// before `current`, and fewer than [`MAX_DEPTH`] productions are open. A
/// target that does not lie before `current - 1` is
/// [`Error::BackrefIsFrontref`], in a path and in a type. Any other target
/// gives what the production at the target gives, one level deeper; where
/// that succeeds the read position is back at `current` and the depth is
/// that of `st`.
pub proof fn lemma_backref(s: Seq<u8>, st: State, target: usize, current: int)
    requires
        st.depth < MAX_DEPTH,
        at(s, st.pos, 'B'),
        base62(s, st.pos + 1) == Ok::<(usize, int), Error>((target, current)),
    ensures
        target >= current - 1 ==> path(s, st) == Err::<State, Error>(Error::BackrefIsFrontref)
            && type_(s, st) == Err::<State, Error>(Error::BackrefIsFrontref),
        target < current - 1 ==> path(s, st) == landed(
            st,
            path(s, State { pos: target as int, nodes: st.nodes, depth: st.depth + 1 }),
            current,
        ) && type_(s, st) == landed(
            st,
            type_(s, State { pos: target as int, nodes: st.nodes, depth: st.depth + 1 }),
            current,
        ),
{
    let body = State { pos: st.pos + 1, nodes: st.nodes, depth: st.depth + 1 };
    assert(moved(body, target as int) == State {
        pos: target as int,
        nodes: st.nodes,
        depth: st.depth + 1,
    });
    assert(path(s, st) == closed(st, path_backref(s, body)));
    assert(type_(s, st) == closed(st, type_backref(s, body)));
}

/// The outcome `r` of the production at the target of a backreference that
/// stood in `st`: where it succeeded, the read position is back at `current`
/// and the depth is that of `st`.
pub open spec fn landed(st: State, r: Result<State, Error>, current: int) -> Result<State, Error> {
    match r {
        Ok(next) => Ok(State { pos: current, nodes: next.nodes, depth: st.depth }),
        Err(e) => Err(e),
    }
}

/// At the ceilings the parse stops: with [`MAX_DEPTH`] productions open, a
/// path or a type is [`Error::TooComplex`], and so is a slot asked of an
/// arena that holds [`MAX_COMPLEXITY`] nodes.
pub proof fn lemma_ceilings(s: Seq<u8>, st: State)
    ensures
        st.depth >= MAX_DEPTH ==> path(s, st) == Err::<State, Error>(Error::TooComplex) && type_(
            s,
            st,
        ) == Err::<State, Error>(Error::TooComplex),
        st.nodes.len() >= MAX_COMPLEXITY ==> reserve(st) == Err::<State, Error>(Error::TooComplex),
{
}

/// A base-62 number is read exactly or not at all: its digits, if there are
/// any, write `v` and stand for `v + 1`; where that does not fit a machine
/// word the number is [`Error::DecodingBase62Num`], and no smaller number
/// comes out in its place.
pub proof fn lemma_base62_exact(s: Seq<u8>, pos: int)
    ensures
        digits_end(s, pos, 62) != pos && digits_value(s, pos, digits_end(s, pos, 62), 62) + 1
            > usize::MAX ==> base62(s, pos) == Err::<(usize, int), Error>(
            Error::DecodingBase62Num,
        ),
        base62(s, pos) matches Ok((n, next)) ==> next == digits_end(s, pos, 62) + 1 && n == (if next
            == pos + 1 {
            0
        } else {
            digits_value(s, pos, digits_end(s, pos, 62), 62) + 1
        }),
        base62(s, pos) matches Err(e) ==> e == Error::DecodingBase62Num,
{
}

/// A base-62 number that is read ends behind where it began, inside the text.
proof fn lemma_base62_reads_on(s: Seq<u8>, pos: int)
    requires
        0 <= pos <= s.len(),
    ensures
        base62(s, pos) matches Ok((_, next)) ==> pos < next <= s.len(),
{
    lemma_digits_end(s, pos, 62);
}

/// Whether the arena and the depth of `st` are within their ceilings.
pub open spec fn within_ceilings(st: State) -> bool {
    st.nodes.len() <= MAX_COMPLEXITY && st.depth <= MAX_DEPTH
}

/// Whether `next` is within the ceilings, holds no fewer nodes than `st`,
/// and has the depth of `st`.
pub open spec fn grown_within(st: State, next: State) -> bool {
    within_ceilings(next) && st.nodes.len() <= next.nodes.len() && next.depth == st.depth
}

/// No production leaves the ceilings, takes a node away, or hands back
/// another depth than it began in: a path or a type that begins within the
/// ceilings and succeeds ends within them at the same depth, and the arena
/// of a whole symbol never holds more than [`MAX_COMPLEXITY`] nodes.
pub proof fn lemma_ceilings_hold(s: Seq<u8>, st: State)
    requires
        within_ceilings(st),
    ensures
        path(s, st) matches Ok(next) ==> grown_within(st, next),
        type_(s, st) matches Ok(next) ==> grown_within(st, next),
        demangle(s) matches Ok(ast) ==> 0 < ast.nodes.len() <= MAX_COMPLEXITY,
{
    held_path(s, st);
    held_type(s, st);
    match strip_prefix(s) {
        Some(source) => {
            held_path(source, start());
        },
        None => {},
    }
}

/// The tests on the arena and on the read position that the grammar makes
/// of what a production hands back never fail where the production began
/// within the ceilings: no production takes a node away or leaves the
/// capacity, and an item of a list that has added no node has read on in the
/// text at the same depth.
pub proof fn lemma_tests_pass(s: Seq<u8>, st: State)
    requires
        within_ceilings(st),
    ensures
        advanced(st, path(s, st)) == path(s, st),
        advanced(st, type_(s, st)) == type_(s, st),
        continued(st, constant(s, st)) == constant(s, st),
        progressed(s, st, generic_arg(s, st)) == generic_arg(s, st),
        forall|found: Seq<usize>| #[trigger] continued(st, types(s, st, found)) == types(s, st, found),
        forall|found: Seq<Generic>| #[trigger]
            continued(st, generics(s, st, found)) == generics(s, st, found),
        forall|found: Seq<BoundModel>| #[trigger]
            continued(st, bounds(s, st, found)) == bounds(s, st, found),
        forall|found: Seq<Binding>| #[trigger]
            continued(st, bindings(s, st, found)) == bindings(s, st, found),
{
    held_path(s, st);
    held_type(s, st);
    held_constant(s, st);
    held_generic_arg(s, st);
    assert forall|found: Seq<usize>| #[trigger]
        continued(st, types(s, st, found)) == types(s, st, found) by {
        held_types(s, st, found);
    }
    assert forall|found: Seq<Generic>| #[trigger]
        continued(st, generics(s, st, found)) == generics(s, st, found) by {
        held_generics(s, st, found);
    }
    assert forall|found: Seq<BoundModel>| #[trigger]
        continued(st, bounds(s, st, found)) == bounds(s, st, found) by {
        held_bounds(s, st, found);
    }
    assert forall|found: Seq<Binding>| #[trigger]
        continued(st, bindings(s, st, found)) == bindings(s, st, found) by {
        held_bindings(s, st, found);
    }
}

proof fn held_path(s: Seq<u8>, st: State)
    requires
        within_ceilings(st),
    ensures
        path(s, st) matches Ok(next) ==> grown_within(st, next),
    decreases room(st), budget(st), 0nat, 0nat,
{
    if st.depth < MAX_DEPTH {
        let body = State { pos: st.pos + 1, nodes: st.nodes, depth: st.depth + 1 };
        held_path_impl(s, body, !at(s, st.pos, 'Y'), !at(s, st.pos, 'M'));
        held_path_nested(s, body);
        held_path_generic(s, body);
        held_path_backref(s, body);
    }
}

proof fn held_path_impl(s: Seq<u8>, st: State, has_impl_path: bool, has_trait: bool)
    requires
        within_ceilings(st),
    ensures
        path_impl(s, st, has_impl_path, has_trait) matches Ok(next) ==> grown_within(st, next),
    decreases room(st), budget(st), 4nat, 0nat,
{
    match reserve(st) {
        Err(_) => {},
        Ok(st1) => {
            let before_type = if has_impl_path {
                match disambiguator(s, st1.pos) {
                    Err(e) => Err(e),
                    Ok((_, p)) => {
                        held_path(s, moved(st1, p));
                        advanced(moved(st1, p), path(s, moved(st1, p)))
                    },
                }
            } else {
                Ok(st1)
            };
            match before_type {
                Err(_) => {},
                Ok(st2) => {
                    held_type(s, st2);
                    match produced(st2, type_(s, st2)) {
                        Err(_) => {},
                        Ok(st3) => {
                            if has_trait {
                                held_path(s, st3);
                            }
                        },
                    }
                },
            }
        },
    }
}

proof fn held_path_nested(s: Seq<u8>, st: State)
    requires
        within_ceilings(st),
    ensures
        path_nested(s, st) matches Ok(next) ==> grown_within(st, next),
    decreases room(st), budget(st), 4nat, 0nat,
{
    let after_tag = if byte_at(s, st.pos).is_some() {
        st.pos + 1
    } else {
        st.pos
    };
    match reserve(st) {
        Err(_) => {},
        Ok(st1) => {
            held_path(s, moved(st1, after_tag));
        },
    }
}

proof fn held_path_generic(s: Seq<u8>, st: State)
    requires
        within_ceilings(st),
    ensures
        path_generic(s, st) matches Ok(next) ==> grown_within(st, next),
    decreases room(st), budget(st), 4nat, 0nat,
{
    match reserve(st) {
        Err(_) => {},
        Ok(st1) => {
            held_path(s, st1);
            match produced(st1, path(s, st1)) {
                Err(_) => {},
                Ok(st2) => {
                    held_generics(s, st2, Seq::empty());
                },
            }
        },
    }
}

proof fn held_path_backref(s: Seq<u8>, st: State)
    requires
        within_ceilings(st),
    ensures
        path_backref(s, st) matches Ok(next) ==> grown_within(st, next),
    decreases room(st), budget(st), 4nat, 0nat,
{
    match base62(s, st.pos) {
        Err(_) => {},
        Ok((target, current)) => {
            if target < current - 1 {
                held_path(s, moved(st, target as int));
            }
        },
    }
}

proof fn held_generic_arg(s: Seq<u8>, st: State)
    requires
        within_ceilings(st),
    ensures
        generic_arg(s, st) matches Ok((next, _)) ==> grown_within(st, next) && (st.nodes.len()
            < next.nodes.len() || st.pos < next.pos <= s.len()),
    decreases room(st), budget(st), 2nat, 0nat,
{
    if at(s, st.pos, 'L') {
        lemma_base62_reads_on(s, st.pos + 1);
    } else if at(s, st.pos, 'K') {
        held_constant(s, moved(st, st.pos + 1));
    } else {
        held_type(s, st);
    }
}

proof fn held_generics(s: Seq<u8>, st: State, found: Seq<Generic>)
    requires
        within_ceilings(st),
    ensures
        generics(s, st, found) matches Ok((next, _)) ==> grown_within(st, next),
    decreases room(st), budget(st), 3nat, (if st.pos < s.len() {
        s.len() - st.pos
    } else {
        0
    }),
{
    if !at(s, st.pos, 'E') {
        held_generic_arg(s, st);
        match progressed(s, st, generic_arg(s, st)) {
            Err(_) => {},
            Ok((st1, arg)) => {
                held_generics(s, st1, found.push(arg));
            },
        }
    }
}

proof fn held_type(s: Seq<u8>, st: State)
    requires
        within_ceilings(st),
    ensures
        type_(s, st) matches Ok(next) ==> grown_within(st, next),
    decreases room(st), budget(st), 0nat, 0nat,
{
    if st.depth < MAX_DEPTH {
        let body = State { pos: st.pos + 1, nodes: st.nodes, depth: st.depth + 1 };
        match byte_at(s, st.pos) {
            None => {},
            Some(tag) => {
                held_type_array(s, body);
                held_type_pointee(s, body, tag);
                held_type_tuple(s, body);
                held_type_fn(s, body);
                held_type_dyn(s, body);
                held_type_backref(s, body);
                held_path(s, moved(body, st.pos));
            },
        }
    }
}

proof fn held_type_pointee(s: Seq<u8>, st: State, tag: u8)
    requires
        within_ceilings(st),
    ensures
        type_pointee(s, st, tag) matches Ok(next) ==> grown_within(st, next),
    decreases room(st), budget(st), 4nat, 0nat,
{
    let lifetime = if tag == 'R' as u8 || tag == 'Q' as u8 {
        super::grammar::opt_lifetime(s, st.pos)
    } else {
        Ok((None, st.pos))
    };
    match lifetime {
        Err(_) => {},
        Ok((_, p)) => {
            match reserve(moved(st, p)) {
                Err(_) => {},
                Ok(st1) => {
                    held_type(s, st1);
                },
            }
        },
    }
}

proof fn held_type_array(s: Seq<u8>, st: State)
    requires
        within_ceilings(st),
    ensures
        type_array(s, st) matches Ok(next) ==> grown_within(st, next),
    decreases room(st), budget(st), 4nat, 0nat,
{
    match reserve(st) {
        Err(_) => {},
        Ok(st1) => {
            held_type(s, st1);
            match produced(st1, type_(s, st1)) {
                Err(_) => {},
                Ok(st2) => {
                    held_constant(s, st2);
                },
            }
        },
    }
}

proof fn held_type_tuple(s: Seq<u8>, st: State)
    requires
        within_ceilings(st),
    ensures
        type_tuple(s, st) matches Ok(next) ==> grown_within(st, next),
    decreases room(st), budget(st), 4nat, 0nat,
{
    match reserve(st) {
        Err(_) => {},
        Ok(st1) => {
            held_types(s, st1, Seq::empty());
        },
    }
}

proof fn held_types(s: Seq<u8>, st: State, found: Seq<usize>)
    requires
        within_ceilings(st),
    ensures
        types(s, st, found) matches Ok((next, _)) ==> grown_within(st, next),
    decreases room(st), budget(st), 1nat, 0nat,
{
    if !at(s, st.pos, 'E') {
        held_type(s, st);
        match produced(st, type_(s, st)) {
            Err(_) => {},
            Ok(st1) => {
                held_types(s, st1, found.push(st.nodes.len() as usize));
            },
        }
    }
}

proof fn held_type_fn(s: Seq<u8>, st: State)
    requires
        within_ceilings(st),
    ensures
        type_fn(s, st) matches Ok(next) ==> grown_within(st, next),
    decreases room(st), budget(st), 4nat, 0nat,
{
    if !at(s, st.pos, 'G') {
        let after_unsafe = if at(s, st.pos, 'U') {
            st.pos + 1
        } else {
            st.pos
        };
        let after_abi = if at(s, after_unsafe, 'K') {
            after_unsafe + 1
        } else {
            after_unsafe
        };
        let name = if at(s, after_unsafe, 'K') && at(s, after_abi, 'C') {
            match ident(s, after_abi + 1) {
                Err(e) => Err(e),
                Ok((name, p)) => Ok((Some(name), p)),
            }
        } else {
            Ok((None, after_abi))
        };
        match name {
            Err(_) => {},
            Ok((_, after_name)) => {
                match reserve(moved(st, after_name)) {
                    Err(_) => {},
                    Ok(st1) => {
                        held_types(s, st1, Seq::empty());
                        match continued(st1, types(s, st1, Seq::empty())) {
                            Err(_) => {},
                            Ok((st2, _)) => {
                                held_type(s, st2);
                            },
                        }
                    },
                }
            },
        }
    }
}

proof fn held_type_dyn(s: Seq<u8>, st: State)
    requires
        within_ceilings(st),
    ensures
        type_dyn(s, st) matches Ok(next) ==> grown_within(st, next),
    decreases room(st), budget(st), 4nat, 0nat,
{
    match reserve(st) {
        Err(_) => {},
        Ok(st1) => {
            held_bounds(s, st1, Seq::empty());
        },
    }
}

proof fn held_bounds(s: Seq<u8>, st: State, found: Seq<BoundModel>)
    requires
        within_ceilings(st),
    ensures
        bounds(s, st, found) matches Ok((next, _)) ==> grown_within(st, next),
    decreases room(st), budget(st), 2nat, 0nat,
{
    if !at(s, st.pos, 'E') {
        held_path(s, st);
        match produced(st, path(s, st)) {
            Err(_) => {},
            Ok(st1) => {
                held_bindings(s, st1, Seq::empty());
                match continued(st1, bindings(s, st1, Seq::empty())) {
                    Err(_) => {},
                    Ok((st2, list)) => {
                        held_bounds(
                            s,
                            st2,
                            found.push(BoundModel { path: st.nodes.len() as usize, bindings: list }),
                        );
                    },
                }
            },
        }
    }
}

proof fn held_bindings(s: Seq<u8>, st: State, found: Seq<Binding>)
    requires
        within_ceilings(st),
    ensures
        bindings(s, st, found) matches Ok((next, _)) ==> grown_within(st, next),
    decreases room(st), budget(st), 1nat, 0nat,
{
    if at(s, st.pos, 'p') {
        match ident(s, st.pos + 1) {
            Err(_) => {},
            Ok((name, p)) => {
                let st1 = moved(st, p);
                held_type(s, st1);
                match produced(st1, type_(s, st1)) {
                    Err(_) => {},
                    Ok(st2) => {
                        held_bindings(
                            s,
                            st2,
                            found.push(Binding { name, ty: st.nodes.len() as usize }),
                        );
                    },
                }
            },
        }
    }
}

proof fn held_type_backref(s: Seq<u8>, st: State)
    requires
        within_ceilings(st),
    ensures
        type_backref(s, st) matches Ok(next) ==> grown_within(st, next),
    decreases room(st), budget(st), 4nat, 0nat,
{
    match base62(s, st.pos) {
        Err(_) => {},
        Ok((target, current)) => {
            if target < current - 1 {
                held_type(s, moved(st, target as int));
            }
        },
    }
}

proof fn held_constant(s: Seq<u8>, st: State)
    requires
        within_ceilings(st),
    ensures
        constant(s, st) matches Ok((next, _)) ==> grown_within(st, next) && st.nodes.len()
            < next.nodes.len(),
    decreases room(st), budget(st), 1nat, 0nat,
{
    if !at(s, st.pos, 'p') {
        held_type(s, st);
    }
}

} // verus!
