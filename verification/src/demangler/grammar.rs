use super::ast::{
    Binding, BoundModel, Const, Generic, Lifetime, Namespace, PathModel, Span, TypeModel,
    MAX_COMPLEXITY, MAX_DEPTH,
};
use super::cursor::byte_at;
use super::error::Error;
use super::number::{digits_end, digits_value, first_index};
use super::primitive::{basic_name, is_const_type};
use vstd::prelude::*;

verus! {

/// What a parse has reached: the read position, the arena, and how many path
/// and type productions are open, one inside the other.
pub struct State {
    pub pos: int,
    pub nodes: Seq<TypeModel>,
    pub depth: int,
}

/// A parsed symbol: the bytes after the prefix and the arena, root in slot 0.
pub struct Ast {
    pub source: Seq<u8>,
    pub nodes: Seq<TypeModel>,
}

/// Whether the byte of `s` at `pos` is the character `c`.
pub open spec fn at(s: Seq<u8>, pos: int, c: char) -> bool {
    byte_at(s, pos) == Some(c as u8)
}

/// A base-62 number at `pos`: digits `0`-`9`, `a`-`z`, `A`-`Z`, most
/// significant first, closed by an underscore. A lone underscore is 0; digits
/// that write `v` stand for `v + 1`. Gives the number and the position after
/// the underscore. Anything malformed, unterminated, or too large for a
/// machine word is [`Error::DecodingBase62Num`].
pub open spec fn base62(s: Seq<u8>, pos: int) -> Result<(usize, int), Error> {
    let end = digits_end(s, pos, 62);
    if !at(s, end, '_') {
        Err(Error::DecodingBase62Num)
    } else if end == pos {
        Ok((0usize, pos + 1))
    } else if digits_value(s, pos, end, 62) + 1 > usize::MAX {
        Err(Error::DecodingBase62Num)
    } else {
        Ok(((digits_value(s, pos, end, 62) + 1) as usize, end + 1))
    }
}

/// An optional disambiguator at `pos`: the tag `s` and a base-62 number.
pub open spec fn disambiguator(s: Seq<u8>, pos: int) -> Result<(Option<usize>, int), Error> {
    if at(s, pos, 's') {
        match base62(s, pos + 1) {
            Ok((id, next)) => Ok((Some(id), next)),
            Err(e) => Err(e),
        }
    } else {
        Ok((None, pos))
    }
}

/// An optional lifetime at `pos`: the tag `L` and a base-62 number.
pub open spec fn opt_lifetime(s: Seq<u8>, pos: int) -> Result<(Option<Lifetime>, int), Error> {
    if at(s, pos, 'L') {
        match base62(s, pos + 1) {
            Ok((id, next)) => Ok((Some(Lifetime(id)), next)),
            Err(e) => Err(e),
        }
    } else {
        Ok((None, pos))
    }
}

/// An identifier at `pos`: a run of decimal digits that gives a length, and
/// that many bytes after it as the name. Without a digit at `pos` the
/// identifier is empty and nothing is read. A length too large for a machine
/// word is [`Error::PathLengthNotNumber`]; a name that would run past the end
/// of the symbol is [`Error::Invalid`].
pub open spec fn ident(s: Seq<u8>, pos: int) -> Result<(Span, int), Error> {
    let end = digits_end(s, pos, 10);
    let len = digits_value(s, pos, end, 10);
    if end == pos {
        Ok((Span { start: pos as usize, end: pos as usize }, pos))
    } else if len > usize::MAX {
        Err(Error::PathLengthNotNumber)
    } else if end + len > s.len() {
        Err(Error::Invalid)
    } else {
        Ok((Span { start: end as usize, end: (end + len) as usize }, end + len))
    }
}

/// The state after the next slot is reserved; a full arena is
/// [`Error::TooComplex`]. The reserved slot is `st.nodes.len()`.
pub open spec fn reserve(st: State) -> Result<State, Error> {
    if st.nodes.len() >= MAX_COMPLEXITY {
        Err(Error::TooComplex)
    } else {
        Ok(State { pos: st.pos, nodes: st.nodes.push(TypeModel::Empty), depth: st.depth })
    }
}

/// The state after `node` is stored in the reserved slot `spot`.
pub open spec fn fill(st: State, spot: int, node: TypeModel) -> State {
    State { pos: st.pos, nodes: st.nodes.update(spot, node), depth: st.depth }
}

/// The state `st` with the read position at `pos`.
pub open spec fn moved(st: State, pos: int) -> State {
    State { pos, nodes: st.nodes, depth: st.depth }
}

/// How many productions may still be opened inside those that are open in
/// `st`.
pub open spec fn budget(st: State) -> nat {
    if st.depth < MAX_DEPTH {
        (MAX_DEPTH - st.depth) as nat
    } else {
        0
    }
}

/// How many slots of the arena are still free in `st`.
pub open spec fn room(st: State) -> nat {
    if st.nodes.len() < MAX_COMPLEXITY {
        (MAX_COMPLEXITY - st.nodes.len()) as nat
    } else {
        0
    }
}

/// The outcome `r` of a production that began in the state `st`, closed
/// again: the state that comes back has the depth of `st`.
pub open spec fn closed(st: State, r: Result<State, Error>) -> Result<State, Error> {
    match r {
        Ok(next) => Ok(State { pos: next.pos, nodes: next.nodes, depth: st.depth }),
        Err(_) => r,
    }
}

/// The outcome `r` of a production that began in `st`. No production takes a
/// node away or leaves the capacity of the arena, so the test passes `r` on
/// unchanged, as `lemma_tests_pass` shows; it is here because the
/// definitions below are well founded by it.
pub open spec fn advanced(st: State, r: Result<State, Error>) -> Result<State, Error> {
    match r {
        Ok(next) => if st.nodes.len() <= next.nodes.len() <= MAX_COMPLEXITY {
            r
        } else {
            Err(Error::TooComplex)
        },
        Err(_) => r,
    }
}

/// As [`advanced`], for the outcome of a production that gives a value.
pub open spec fn continued<T>(st: State, r: Result<(State, T), Error>) -> Result<
    (State, T),
    Error,
> {
    match r {
        Ok((next, _)) => if st.nodes.len() <= next.nodes.len() <= MAX_COMPLEXITY {
            r
        } else {
            Err(Error::TooComplex)
        },
        Err(_) => r,
    }
}

/// As [`continued`], for the outcome of one item of a list that is read
/// from the text `s`: the item has added a node, or the read position has
/// gone forward at the same depth.
pub open spec fn progressed<T>(s: Seq<u8>, st: State, r: Result<(State, T), Error>) -> Result<
    (State, T),
    Error,
> {
    match r {
        Ok((next, _)) => if st.nodes.len() < next.nodes.len() <= MAX_COMPLEXITY || st.nodes.len()
            == next.nodes.len() && st.depth == next.depth && st.pos < next.pos <= s.len() {
            r
        } else {
            Err(Error::TooComplex)
        },
        Err(_) => r,
    }
}

/// The outcome `r` of a path or type production that began in `st` and whose
/// node another node is about to name as its child in slot `st.nodes.len()`.
/// A production that succeeded without a node (the terminator `E` read as a
/// path) leaves that slot unfilled, which is [`Error::Invalid`].
pub open spec fn produced(st: State, r: Result<State, Error>) -> Result<State, Error> {
    match advanced(st, r) {
        Ok(next) => if next.nodes.len() > st.nodes.len() {
            Ok(next)
        } else {
            Err(Error::Invalid)
        },
        Err(e) => Err(e),
    }
}

/// The namespace that a tag byte names.
pub open spec fn namespace_of(tag: Option<u8>) -> Namespace {
    if tag == Some('v' as u8) {
        Namespace::Value
    } else if tag == Some('t' as u8) {
        Namespace::Type
    } else if tag == Some('C' as u8) {
        Namespace::Closure
    } else {
        Namespace::Unknown
    }
}

/// The path production at `st.pos`, by its tag byte:
/// `C` a crate root, `M` `X` `Y` the impl forms, `N` a nested path, `I` a
/// generic instantiation, `B` a backreference, `E` the terminator, which
/// reads as a path without a node. The path is open while it is parsed, one
/// level deeper than `st`, and the state that comes back has the depth of
/// `st` again; with [`MAX_DEPTH`] productions open the path is
/// [`Error::TooComplex`]. The end of the symbol or any other tag is
/// [`Error::Invalid`].
pub open spec fn path(s: Seq<u8>, st: State) -> Result<State, Error>
    decreases room(st), budget(st), 0nat, 0nat,
{
    if st.depth >= MAX_DEPTH {
        Err(Error::TooComplex)
    } else {
        let body = State { pos: st.pos + 1, nodes: st.nodes, depth: st.depth + 1 };
        closed(
            st,
            if at(s, st.pos, 'C') {
                path_crate(s, body)
            } else if at(s, st.pos, 'M') || at(s, st.pos, 'X') || at(s, st.pos, 'Y') {
                path_impl(s, body, !at(s, st.pos, 'Y'), !at(s, st.pos, 'M'))
            } else if at(s, st.pos, 'N') {
                path_nested(s, body)
            } else if at(s, st.pos, 'I') {
                path_generic(s, body)
            } else if at(s, st.pos, 'B') {
                path_backref(s, body)
            } else if at(s, st.pos, 'E') {
                Ok(body)
            } else {
                Err(Error::Invalid)
            },
        )
    }
}

/// After `C`: an optional disambiguator and an identifier.
pub open spec fn path_crate(s: Seq<u8>, st: State) -> Result<State, Error> {
    match disambiguator(s, st.pos) {
        Err(e) => Err(e),
        Ok((id, after_id)) => match ident(s, after_id) {
            Err(e) => Err(e),
            Ok((name, after_name)) => match reserve(st) {
                Err(e) => Err(e),
                Ok(st1) => Ok(
                    fill(
                        moved(st1, after_name),
                        st.nodes.len() as int,
                        TypeModel::Path(PathModel::Crate(id, name)),
                    ),
                ),
            },
        },
    }
}

/// After `M`, `X` or `Y`. With `has_impl_path` (`M`, `X`) an optional
/// disambiguator and the path of the impl come first; no node names them.
/// Then the self type. With `has_trait` (`X`, `Y`) the path of the trait
/// follows and the node is `<type as trait>`; without, it is `<type>`.
pub open spec fn path_impl(s: Seq<u8>, st: State, has_impl_path: bool, has_trait: bool) -> Result<
    State,
    Error,
>
    decreases room(st), budget(st), 4nat, 0nat,
{
    match reserve(st) {
        Err(e) => Err(e),
        Ok(st1) => {
            let spot = st.nodes.len() as int;
            let before_type = if has_impl_path {
                match disambiguator(s, st1.pos) {
                    Err(e) => Err(e),
                    Ok((_, p)) => advanced(moved(st1, p), path(s, moved(st1, p))),
                }
            } else {
                Ok(st1)
            };
            match before_type {
                Err(e) => Err(e),
                Ok(st2) => match produced(st2, type_(s, st2)) {
                    Err(e) => Err(e),
                    Ok(st3) => {
                        let self_type = st2.nodes.len() as usize;
                        if has_trait {
                            match produced(st3, path(s, st3)) {
                                Err(e) => Err(e),
                                Ok(st4) => Ok(
                                    fill(
                                        st4,
                                        spot,
                                        TypeModel::Path(
                                            PathModel::Trait(self_type, st3.nodes.len() as usize),
                                        ),
                                    ),
                                ),
                            }
                        } else {
                            Ok(fill(st3, spot, TypeModel::Path(PathModel::InherentImpl(self_type))))
                        }
                    },
                },
            }
        },
    }
}

/// After `N`: a namespace tag, the parent path, which takes the very next
/// slot, then an optional disambiguator and an identifier.
pub open spec fn path_nested(s: Seq<u8>, st: State) -> Result<State, Error>
    decreases room(st), budget(st), 4nat, 0nat,
{
    let namespace = namespace_of(byte_at(s, st.pos));
    let after_tag = if byte_at(s, st.pos).is_some() {
        st.pos + 1
    } else {
        st.pos
    };
    match reserve(st) {
        Err(e) => Err(e),
        Ok(st1) => {
            let spot = st.nodes.len() as int;
            let st2 = moved(st1, after_tag);
            match produced(st2, path(s, st2)) {
                Err(e) => Err(e),
                Ok(st3) => match disambiguator(s, st3.pos) {
                    Err(e) => Err(e),
                    Ok((id, after_id)) => match ident(s, after_id) {
                        Err(e) => Err(e),
                        Ok((name, after_name)) => Ok(
                            fill(
                                moved(st3, after_name),
                                spot,
                                TypeModel::Path(
                                    PathModel::Nested(namespace, (spot + 1) as usize, id, name),
                                ),
                            ),
                        ),
                    },
                },
            }
        },
    }
}

/// After `I`: the base path, which takes the very next slot, the generic
/// arguments up to the terminator `E`, and then, if the tag `c` follows, an
/// identifier that is read and dropped.
pub open spec fn path_generic(s: Seq<u8>, st: State) -> Result<State, Error>
    decreases room(st), budget(st), 4nat, 0nat,
{
    match reserve(st) {
        Err(e) => Err(e),
        Ok(st1) => {
            let spot = st.nodes.len() as int;
            match produced(st1, path(s, st1)) {
                Err(e) => Err(e),
                Ok(st2) => match continued(st2, generics(s, st2, Seq::empty())) {
                    Err(e) => Err(e),
                    Ok((st3, args)) => {
                        let st4 = fill(
                            st3,
                            spot,
                            TypeModel::Path(PathModel::Generic((spot + 1) as usize, args)),
                        );
                        if at(s, st4.pos, 'c') {
                            match ident(s, st4.pos + 1) {
                                Err(e) => Err(e),
                                Ok((_, p)) => Ok(moved(st4, p)),
                            }
                        } else {
                            Ok(st4)
                        }
                    },
                },
            }
        },
    }
}

/// One generic argument at `st.pos`: `L` and a base-62 number is a lifetime,
/// `K` and a constant is a constant, anything else is a type.
pub open spec fn generic_arg(s: Seq<u8>, st: State) -> Result<(State, Generic), Error>
    decreases room(st), budget(st), 2nat, 0nat,
{
    if at(s, st.pos, 'L') {
        match base62(s, st.pos + 1) {
            Err(e) => Err(e),
            Ok((id, p)) => Ok((moved(st, p), Generic::Lifetime(Lifetime(id)))),
        }
    } else if at(s, st.pos, 'K') {
        match constant(s, moved(st, st.pos + 1)) {
            Err(e) => Err(e),
            Ok((st1, value)) => Ok((st1, Generic::Const(value))),
        }
    } else {
        match produced(st, type_(s, st)) {
            Err(e) => Err(e),
            Ok(st1) => Ok((st1, Generic::Type(st.nodes.len() as usize))),
        }
    }
}

/// The generic arguments from `st.pos` up to the terminator `E`, after the
/// arguments `args` that were read before.
pub open spec fn generics(s: Seq<u8>, st: State, args: Seq<Generic>) -> Result<
    (State, Seq<Generic>),
    Error,
>
    decreases room(st), budget(st), 3nat, (if st.pos < s.len() {
        s.len() - st.pos
    } else {
        0
    }),
{
    if at(s, st.pos, 'E') {
        Ok((moved(st, st.pos + 1), args))
    } else {
        match progressed(s, st, generic_arg(s, st)) {
            Err(e) => Err(e),
            Ok((st1, arg)) => generics(s, st1, args.push(arg)),
        }
    }
}

/// Where the read position stands behind the number of the backreference
/// at `st.pos`, if that backreference is refused for its target.
pub open spec fn refused_backref(s: Seq<u8>, st: State) -> Option<int> {
    if at(s, st.pos, 'B') {
        match base62(s, st.pos + 1) {
            Ok((target, current)) => if target >= current - 1 {
                Some(current)
            } else {
                None
            },
            Err(_) => None,
        }
    } else {
        None
    }
}

/// After `B` in a path: a base-62 number that is the position of an earlier
/// path. A target at or after the position before the one now reached is
/// [`Error::BackrefIsFrontref`]. The path at the target is parsed into new
/// slots and the read position comes back behind the number.
pub open spec fn path_backref(s: Seq<u8>, st: State) -> Result<State, Error>
    decreases room(st), budget(st), 4nat, 0nat,
{
    match base62(s, st.pos) {
        Err(e) => Err(e),
        Ok((target, current)) => if target >= current - 1 {
            Err(Error::BackrefIsFrontref)
        } else {
            match path(s, moved(st, target as int)) {
                Err(e) => Err(e),
                Ok(st1) => Ok(moved(st1, current)),
            }
        },
    }
}

/// The type production at `st.pos`, by its tag byte: `A` an array, `S` a
/// slice, `T` a tuple, `R` `Q` references, `P` `O` raw pointers, `F` a
/// function signature, `D` a trait object, `B` a backreference; the tag of a
/// primitive is that primitive; any other byte is not read, and a path is
/// parsed there as a named type. The type is open while it is parsed, one
/// level deeper than `st`, and the state that comes back has the depth of
/// `st` again; with [`MAX_DEPTH`] productions open the type is
/// [`Error::TooComplex`]. The end of the symbol is [`Error::Invalid`].
pub open spec fn type_(s: Seq<u8>, st: State) -> Result<State, Error>
    decreases room(st), budget(st), 0nat, 0nat,
{
    if st.depth >= MAX_DEPTH {
        Err(Error::TooComplex)
    } else {
        let body = State { pos: st.pos + 1, nodes: st.nodes, depth: st.depth + 1 };
        match byte_at(s, st.pos) {
            None => Err(Error::Invalid),
            Some(tag) => closed(
                st,
                if tag == 'A' as u8 {
                    type_array(s, body)
                } else if tag == 'S' as u8 || tag == 'P' as u8 || tag == 'O' as u8 || tag
                    == 'R' as u8 || tag == 'Q' as u8 {
                    type_pointee(s, body, tag)
                } else if tag == 'T' as u8 {
                    type_tuple(s, body)
                } else if tag == 'F' as u8 {
                    type_fn(s, body)
                } else if tag == 'D' as u8 {
                    type_dyn(s, body)
                } else if tag == 'B' as u8 {
                    type_backref(s, body)
                } else if basic_name(tag).is_some() {
                    match reserve(body) {
                        Err(e) => Err(e),
                        Ok(st1) => Ok(fill(st1, st.nodes.len() as int, TypeModel::Basic(tag))),
                    }
                } else {
                    path(s, moved(body, st.pos))
                },
            ),
        }
    }
}

/// The node of a type with one type under it: a slice, a pointer or a
/// reference, by its tag.
pub open spec fn pointee_node(tag: u8, lifetime: Option<Lifetime>, child: usize) -> TypeModel {
    if tag == 'S' as u8 {
        TypeModel::Slice(child)
    } else if tag == 'P' as u8 {
        TypeModel::Pointer(child)
    } else if tag == 'O' as u8 {
        TypeModel::PointerMut(child)
    } else if tag == 'R' as u8 {
        TypeModel::Ref(lifetime, child)
    } else {
        TypeModel::RefMut(lifetime, child)
    }
}

/// After `S`, `P`, `O`, `R` or `Q`: for the references an optional lifetime,
/// then the type under it, which takes the slot after the node's own.
pub open spec fn type_pointee(s: Seq<u8>, st: State, tag: u8) -> Result<State, Error>
    decreases room(st), budget(st), 4nat, 0nat,
{
    let lifetime = if tag == 'R' as u8 || tag == 'Q' as u8 {
        opt_lifetime(s, st.pos)
    } else {
        Ok((None, st.pos))
    };
    match lifetime {
        Err(e) => Err(e),
        Ok((lifetime, p)) => match reserve(moved(st, p)) {
            Err(e) => Err(e),
            Ok(st1) => {
                let spot = st.nodes.len() as int;
                match produced(st1, type_(s, st1)) {
                    Err(e) => Err(e),
                    Ok(st2) => Ok(fill(st2, spot, pointee_node(tag, lifetime, (spot + 1) as usize))),
                }
            },
        },
    }
}

/// After `A`: the element type, which takes the slot after the node's own,
/// and the length, a constant.
pub open spec fn type_array(s: Seq<u8>, st: State) -> Result<State, Error>
    decreases room(st), budget(st), 4nat, 0nat,
{
    match reserve(st) {
        Err(e) => Err(e),
        Ok(st1) => {
            let spot = st.nodes.len() as int;
            match produced(st1, type_(s, st1)) {
                Err(e) => Err(e),
                Ok(st2) => match constant(s, st2) {
                    Err(e) => Err(e),
                    Ok((st3, len)) => Ok(
                        fill(st3, spot, TypeModel::Array((spot + 1) as usize, len)),
                    ),
                },
            }
        },
    }
}

/// After `T`: the element types up to the terminator `E`.
pub open spec fn type_tuple(s: Seq<u8>, st: State) -> Result<State, Error>
    decreases room(st), budget(st), 4nat, 0nat,
{
    match reserve(st) {
        Err(e) => Err(e),
        Ok(st1) => match types(s, st1, Seq::empty()) {
            Err(e) => Err(e),
            Ok((st2, elems)) => Ok(fill(st2, st.nodes.len() as int, TypeModel::Tuple(elems))),
        },
    }
}

/// The types from `st.pos` up to the terminator `E`, after the types in the
/// slots `spots` that were read before.
pub open spec fn types(s: Seq<u8>, st: State, spots: Seq<usize>) -> Result<
    (State, Seq<usize>),
    Error,
>
    decreases room(st), budget(st), 1nat, 0nat,
{
    if at(s, st.pos, 'E') {
        Ok((moved(st, st.pos + 1), spots))
    } else {
        match produced(st, type_(s, st)) {
            Err(e) => Err(e),
            Ok(st1) => types(s, st1, spots.push(st.nodes.len() as usize)),
        }
    }
}

/// After `F`: a binder `G`, which is not supported and [`Error::Invalid`];
/// `U` if the function is unsafe; `K` for an ABI and, if `C` follows it, an
/// identifier as the name; the argument types up to the terminator `E`; and
/// the return type, or `u` if the function returns the unit.
pub open spec fn type_fn(s: Seq<u8>, st: State) -> Result<State, Error>
    decreases room(st), budget(st), 4nat, 0nat,
{
    if at(s, st.pos, 'G') {
        Err(Error::Invalid)
    } else {
        let is_unsafe = at(s, st.pos, 'U');
        let after_unsafe = if is_unsafe {
            st.pos + 1
        } else {
            st.pos
        };
        let after_abi = if at(s, after_unsafe, 'K') {
            after_unsafe + 1
        } else {
            after_unsafe
        };
        let name = if at(s, after_unsafe, 'K') && at(s, after_abi, 'C') {
            match ident(s, after_abi + 1) {
                Err(e) => Err(e),
                Ok((name, p)) => Ok((Some(name), p)),
            }
        } else {
            Ok((None, after_abi))
        };
        match name {
            Err(e) => Err(e),
            Ok((name, after_name)) => match reserve(moved(st, after_name)) {
                Err(e) => Err(e),
                Ok(st1) => {
                    let spot = st.nodes.len() as int;
                    match continued(st1, types(s, st1, Seq::empty())) {
                        Err(e) => Err(e),
                        Ok((st2, args)) => if at(s, st2.pos, 'u') {
                            Ok(
                                fill(
                                    moved(st2, st2.pos + 1),
                                    spot,
                                    TypeModel::FnSig(None, is_unsafe, name, args, None),
                                ),
                            )
                        } else {
                            match produced(st2, type_(s, st2)) {
                                Err(e) => Err(e),
                                Ok(st3) => Ok(
                                    fill(
                                        st3,
                                        spot,
                                        TypeModel::FnSig(
                                            None,
                                            is_unsafe,
                                            name,
                                            args,
                                            Some(st2.nodes.len() as usize),
                                        ),
                                    ),
                                ),
                            }
                        },
                    }
                },
            },
        }
    }
}

/// After `D`: a binder `G`, which is not supported and [`Error::Invalid`];
/// the traits with their bindings up to the terminator `E`; and the lifetime,
/// `L` with a base-62 number, without which the production is
/// [`Error::DecodingBase62Num`].
pub open spec fn type_dyn(s: Seq<u8>, st: State) -> Result<State, Error>
    decreases room(st), budget(st), 4nat, 0nat,
{
    if at(s, st.pos, 'G') {
        Err(Error::Invalid)
    } else {
        match reserve(st) {
            Err(e) => Err(e),
            Ok(st1) => match bounds(s, st1, Seq::empty()) {
                Err(e) => Err(e),
                Ok((st2, traits)) => if !at(s, st2.pos, 'L') {
                    Err(Error::DecodingBase62Num)
                } else {
                    match base62(s, st2.pos + 1) {
                        Err(e) => Err(e),
                        Ok((id, p)) => Ok(
                            fill(
                                moved(st2, p),
                                st.nodes.len() as int,
                                TypeModel::DynTrait(None, traits, Lifetime(id)),
                            ),
                        ),
                    }
                },
            },
        }
    }
}

/// The traits of a trait object from `st.pos` up to the terminator `E`,
/// after the traits `traits` that were read before: each is a path with the
/// bindings that follow it.
pub open spec fn bounds(s: Seq<u8>, st: State, traits: Seq<BoundModel>) -> Result<
    (State, Seq<BoundModel>),
    Error,
>
    decreases room(st), budget(st), 2nat, 0nat,
{
    if at(s, st.pos, 'E') {
        Ok((moved(st, st.pos + 1), traits))
    } else {
        match produced(st, path(s, st)) {
            Err(e) => Err(e),
            Ok(st1) => match continued(st1, bindings(s, st1, Seq::empty())) {
                Err(e) => Err(e),
                Ok((st2, found)) => bounds(
                    s,
                    st2,
                    traits.push(BoundModel { path: st.nodes.len() as usize, bindings: found }),
                ),
            },
        }
    }
}

/// The bindings of one trait from `st.pos`, after the bindings `found` that
/// were read before: each is the tag `p`, an identifier and a type. The
/// first byte that is no `p` ends them and is not read.
pub open spec fn bindings(s: Seq<u8>, st: State, found: Seq<Binding>) -> Result<
    (State, Seq<Binding>),
    Error,
>
    decreases room(st), budget(st), 1nat, 0nat,
{
    if !at(s, st.pos, 'p') {
        Ok((st, found))
    } else {
        match ident(s, st.pos + 1) {
            Err(e) => Err(e),
            Ok((name, p)) => {
                let st1 = moved(st, p);
                match produced(st1, type_(s, st1)) {
                    Err(e) => Err(e),
                    Ok(st2) => bindings(
                        s,
                        st2,
                        found.push(Binding { name, ty: st.nodes.len() as usize }),
                    ),
                }
            },
        }
    }
}

/// After `B` in a type: as [`path_backref`], with the type at the target.
pub open spec fn type_backref(s: Seq<u8>, st: State) -> Result<State, Error>
    decreases room(st), budget(st), 4nat, 0nat,
{
    match base62(s, st.pos) {
        Err(e) => Err(e),
        Ok((target, current)) => if target >= current - 1 {
            Err(Error::BackrefIsFrontref)
        } else {
            match type_(s, moved(st, target as int)) {
                Err(e) => Err(e),
                Ok(st1) => Ok(moved(st1, current)),
            }
        },
    }
}

/// A constant at `st.pos`. The tag `p` is the inferred constant: it takes a
/// slot for its type, the inferred primitive `_`, and has no value. Otherwise
/// the constant is a type, which must be a primitive that constants can have
/// ([`Error::Invalid`] if not), `n` if the value is negated, and the value
/// text up to an underscore, without which the constant is
/// [`Error::ConstDelimiterNotFound`].
pub open spec fn constant(s: Seq<u8>, st: State) -> Result<(State, Const), Error>
    decreases room(st), budget(st), 1nat, 0nat,
{
    let ty = st.nodes.len() as usize;
    if at(s, st.pos, 'p') {
        match reserve(st) {
            Err(e) => Err(e),
            Ok(st1) => Ok(
                (
                    fill(moved(st1, st.pos + 1), ty as int, TypeModel::Basic('p' as u8)),
                    Const { neg: false, ty, data: Span { start: 0, end: 0 } },
                ),
            ),
        }
    } else {
        match produced(st, type_(s, st)) {
            Err(e) => Err(e),
            Ok(st1) => if !is_const_type(st1.nodes[ty as int]) {
                Err(Error::Invalid)
            } else {
                let neg = at(s, st1.pos, 'n');
                let start = if neg {
                    st1.pos + 1
                } else {
                    st1.pos
                };
                let end = first_index(s, start, '_' as u8);
                if !at(s, end, '_') {
                    Err(Error::ConstDelimiterNotFound)
                } else {
                    Ok(
                        (
                            moved(st1, end + 1),
                            Const { neg, ty, data: Span { start: start as usize, end: end as usize } },
                        ),
                    )
                }
            },
        }
    }
}

/// The bytes of `text` after its prefix: `_R`, a bare `R`, or `__R`.
pub open spec fn strip_prefix(text: Seq<u8>) -> Option<Seq<u8>> {
    if at(text, 0, '_') && at(text, 1, 'R') {
        Some(text.subrange(2, text.len() as int))
    } else if at(text, 0, 'R') {
        Some(text.subrange(1, text.len() as int))
    } else if at(text, 0, '_') && at(text, 1, '_') && at(text, 2, 'R') {
        Some(text.subrange(3, text.len() as int))
    } else {
        None
    }
}

/// Whether every byte of `s` is ASCII.
pub open spec fn is_ascii(s: Seq<u8>) -> bool {
    forall|i: int| 0 <= i < s.len() ==> #[trigger] s[i] < 0x80
}

/// The state in which a parse begins.
pub open spec fn start() -> State {
    State { pos: 0, nodes: Seq::empty(), depth: 0 }
}

/// What demangling `text` gives. A text without a known prefix is
/// [`Error::UnknownPrefix`]; nothing after the prefix is
/// [`Error::SymbolTooSmall`]; a byte outside ASCII after the prefix is
/// [`Error::NotAscii`]. Then one path is parsed from the first byte after the
/// prefix; what follows the path is not read. A path without a node is
/// [`Error::Invalid`].
pub open spec fn demangle(text: Seq<u8>) -> Result<Ast, Error> {
    match strip_prefix(text) {
        None => Err(Error::UnknownPrefix),
        Some(source) => if source.len() == 0 {
            Err(Error::SymbolTooSmall)
        } else if !is_ascii(source) {
            Err(Error::NotAscii)
        } else {
            match produced(start(), path(source, start())) {
                Err(e) => Err(e),
                Ok(st) => Ok(Ast { source, nodes: st.nodes }),
            }
        },
    }
}

} // verus!
