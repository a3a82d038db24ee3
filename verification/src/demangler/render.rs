use super::ast::{
    Binding, BoundModel, Const, Generic, Lifetime, Namespace, PathModel, Span, TypeModel,
};
use super::number::{digits_end, digits_value};
use super::primitive::{basic_name, const_kind, ConstKind};
use vstd::prelude::*;

verus! {

/// The bytes of `bytes` as characters, one for one.
pub open spec fn chars_of(bytes: Seq<u8>) -> Seq<char> {
    Seq::new(bytes.len(), |i: int| bytes[i] as char)
}

/// The text of `span` in the source.
pub open spec fn span_text(src: Seq<u8>, span: Span) -> Seq<char> {
    chars_of(src.subrange(span.start as int, span.end as int))
}

/// The character of the decimal digit `d`.
pub open spec fn digit_char(d: nat) -> char {
    (('0' as u8) + d) as char
}

/// The decimal digits of `n`, most significant first; 0 is `0`.
pub open spec fn decimal(n: nat) -> Seq<char>
    decreases n,
{
    if n < 10 {
        seq![digit_char(n)]
    } else {
        decimal(n / 10).push(digit_char(n % 10))
    }
}

/// The decimal digits of `n`, behind a `-` if `n` is negative.
pub open spec fn signed_decimal(n: int) -> Seq<char> {
    if n < 0 {
        seq!['-'] + decimal((-n) as nat)
    } else {
        decimal(n as nat)
    }
}

/// The number that the text of `span` writes in hexadecimal, in either case
/// of the letters. Empty text, a byte that is no hexadecimal digit, or a
/// number too large for a machine word give `None`.
pub open spec fn hex_number(src: Seq<u8>, span: Span) -> Option<usize> {
    if span.start < span.end <= src.len() && digits_end(src, span.start as int, 16) >= span.end
        && digits_value(src, span.start as int, span.end as int, 16) <= usize::MAX {
        Some(digits_value(src, span.start as int, span.end as int, 16) as usize)
    } else {
        None
    }
}

/// The character with the code `code`, if there is one: the surrogates and
/// what lies above `0x10FFFF` are no characters.
pub open spec fn char_of_code(code: usize) -> Option<char> {
    if code <= 0xD7FF || 0xE000 <= code <= 0x10FFFF {
        Some(code as char)
    } else {
        None
    }
}

/// The letter of a lifetime: 1 to 26 are `a` to `z`, 27 to 52 are `A` to
/// `Z`; the elided lifetime 0 and the numbers above 52 have none.
pub open spec fn lifetime_letter(lifetime: Lifetime) -> Option<char> {
    let id = lifetime.0;
    if 1 <= id <= 26 {
        Some((('a' as u8) + (id - 1)) as char)
    } else if 27 <= id <= 52 {
        Some((('A' as u8) + (id - 27)) as char)
    } else {
        None
    }
}

/// The letter of a lifetime, or `_` where it has none.
pub open spec fn lifetime_char(lifetime: Lifetime) -> char {
    match lifetime_letter(lifetime) {
        Some(c) => c,
        None => '_',
    }
}

/// What stands in front of the target of a reference.
pub open spec fn render_ref(lifetime: Option<Lifetime>, mutable: bool) -> Seq<char> {
    let named = match lifetime {
        Some(lifetime) => lifetime.0 != 0,
        None => false,
    };
    if named {
        "&'"@.push(lifetime_char(lifetime.unwrap())) + (if mutable {
            " mut "@
        } else {
            seq![' ']
        })
    } else if mutable {
        "&mut "@
    } else {
        seq!['&']
    }
}

/// The text of a constant. The inferred constant is `_`. An integer is the
/// decimal form of its hexadecimal value text, behind a `-` if it is negated;
/// a character is the character whose code the value text gives. A value
/// text that gives no number, or no character, is shown as `_`, and so is a
/// constant of a type that constants do not have.
pub open spec fn render_const(src: Seq<u8>, nodes: Seq<TypeModel>, value: Const) -> Seq<char> {
    let kind = if value.ty < nodes.len() {
        match nodes[value.ty as int] {
            TypeModel::Basic(tag) => const_kind(tag),
            _ => None,
        }
    } else {
        None
    };
    match kind {
        Some(ConstKind::Integer) => match hex_number(src, value.data) {
            Some(v) => (if value.neg {
                seq!['-']
            } else {
                Seq::empty()
            }) + decimal(v as nat),
            None => seq!['_'],
        },
        Some(ConstKind::Char) => match hex_number(src, value.data) {
            Some(v) => match char_of_code(v) {
                Some(c) => seq![c],
                None => seq!['_'],
            },
            None => seq!['_'],
        },
        _ => seq!['_'],
    }
}

/// What a closure shows in place of a name: `{closure`, then `:` and the
/// name if it has one, then `#` and the disambiguator if that is not 0, then
/// `}`.
pub open spec fn render_closure(src: Seq<u8>, id: Option<usize>, name: Span) -> Seq<char> {
    "{closure"@ + (if name.start != name.end {
        seq![':'] + span_text(src, name)
    } else {
        Seq::empty()
    }) + (match id {
        Some(id) => if id != 0 {
            seq!['#'] + decimal(id as nat)
        } else {
            Seq::empty()
        },
        None => Seq::empty(),
    }) + seq!['}']
}

/// Whether slot `idx` holds a nested path in the type namespace.
pub open spec fn is_type_path(nodes: Seq<TypeModel>, idx: usize) -> bool {
    idx < nodes.len() && match nodes[idx as int] {
        TypeModel::Path(PathModel::Nested(ns, _, _, _)) => ns == Namespace::Type,
        _ => false,
    }
}

/// How far slot `at` is from the end of the arena.
pub open spec fn height(nodes: Seq<TypeModel>, at: int) -> nat {
    if at < nodes.len() {
        (nodes.len() - at) as nat
    } else {
        0
    }
}

/// The text of the child `child` of the node in slot `parent`. Children come
/// after their parent; a slot that is no child gives no text.
pub open spec fn render_child(src: Seq<u8>, nodes: Seq<TypeModel>, parent: int, child: usize) -> Seq<
    char,
>
    decreases height(nodes, parent), 0nat, 0nat,
{
    if parent < child < nodes.len() {
        render_node(src, nodes, child as int)
    } else {
        Seq::empty()
    }
}

/// The text of the node in slot `at`.
pub open spec fn render_node(src: Seq<u8>, nodes: Seq<TypeModel>, at: int) -> Seq<char>
    decreases height(nodes, at), 3nat, 0nat,
{
    if !(0 <= at < nodes.len()) {
        Seq::empty()
    } else {
        match nodes[at] {
            TypeModel::Empty => Seq::empty(),
            TypeModel::Basic(tag) => match basic_name(tag) {
                Some(name) => name,
                None => Seq::empty(),
            },
            TypeModel::Path(PathModel::Crate(_, name)) => span_text(src, name),
            TypeModel::Path(PathModel::Nested(ns, up, id, name)) => render_child(
                src,
                nodes,
                at,
                up,
            ) + "::"@ + (if ns == Namespace::Closure {
                render_closure(src, id, name)
            } else {
                span_text(src, name)
            }),
            TypeModel::Path(PathModel::Generic(base, args)) => render_child(src, nodes, at, base)
                + (if is_type_path(nodes, base) {
                seq!['<']
            } else {
                "::<"@
            }) + render_generics(src, nodes, at, args, 0) + seq!['>'],
            TypeModel::Path(PathModel::InherentImpl(ty)) => seq!['<'] + render_child(
                src,
                nodes,
                at,
                ty,
            ) + seq!['>'],
            TypeModel::Path(PathModel::Trait(ty, tr)) => seq!['<'] + render_child(
                src,
                nodes,
                at,
                ty,
            ) + " as "@ + render_child(src, nodes, at, tr) + seq!['>'],
            TypeModel::Array(elem, size) => seq!['['] + render_child(src, nodes, at, elem) + "; "@
                + render_const(src, nodes, size) + seq![']'],
            TypeModel::Slice(elem) => seq!['['] + render_child(src, nodes, at, elem) + seq![']'],
            TypeModel::Tuple(elems) => seq!['('] + render_list(src, nodes, at, elems, 0) + seq![
                ')',
            ],
            TypeModel::Ref(lifetime, ty) => render_ref(lifetime, false) + render_child(
                src,
                nodes,
                at,
                ty,
            ),
            TypeModel::RefMut(lifetime, ty) => render_ref(lifetime, true) + render_child(
                src,
                nodes,
                at,
                ty,
            ),
            TypeModel::Pointer(ty) => "*const "@ + render_child(src, nodes, at, ty),
            TypeModel::PointerMut(ty) => "*mut "@ + render_child(src, nodes, at, ty),
            TypeModel::FnSig(_, is_unsafe, name, args, ret) => (if is_unsafe {
                "unsafe "@
            } else {
                Seq::empty()
            }) + (match name {
                Some(name) => "fn "@ + span_text(src, name) + seq!['('],
                None => "fn("@,
            }) + render_list(src, nodes, at, args, 0) + seq![')'] + (match ret {
                Some(ret) => " -> "@ + render_child(src, nodes, at, ret),
                None => Seq::empty(),
            }),
            TypeModel::DynTrait(_, traits, lifetime) => "dyn "@ + render_bounds(
                src,
                nodes,
                at,
                traits,
                0,
            ) + (match lifetime_letter(lifetime) {
                Some(c) => " + '"@.push(c),
                None => Seq::empty(),
            }),
        }
    }
}

/// What stands between two items of a list, and nothing behind the last.
pub open spec fn separator(k: int, len: int) -> Seq<char> {
    if k + 1 < len {
        ", "@
    } else {
        Seq::empty()
    }
}

/// The texts of the children `list[k..]` of the node in slot `parent`, with
/// `, ` between them.
pub open spec fn render_list(
    src: Seq<u8>,
    nodes: Seq<TypeModel>,
    parent: int,
    list: Seq<usize>,
    k: int,
) -> Seq<char>
    decreases height(nodes, parent), 2nat, list.len() - k,
{
    if !(0 <= k < list.len()) {
        Seq::empty()
    } else {
        render_child(src, nodes, parent, list[k]) + separator(k, list.len() as int) + render_list(
            src,
            nodes,
            parent,
            list,
            k + 1,
        )
    }
}

/// The text of one generic argument of the node in slot `parent`: a lifetime
/// is `'` and its letter or `_`.
pub open spec fn render_generic(src: Seq<u8>, nodes: Seq<TypeModel>, parent: int, arg: Generic) -> Seq<
    char,
>
    decreases height(nodes, parent), 1nat, 0nat,
{
    match arg {
        Generic::Lifetime(lifetime) => seq!['\'', lifetime_char(lifetime)],
        Generic::Type(ty) => render_child(src, nodes, parent, ty),
        Generic::Const(value) => render_const(src, nodes, value),
    }
}

/// The texts of the generic arguments `args[k..]` of the node in slot
/// `parent`, with `, ` between them.
pub open spec fn render_generics(
    src: Seq<u8>,
    nodes: Seq<TypeModel>,
    parent: int,
    args: Seq<Generic>,
    k: int,
) -> Seq<char>
    decreases height(nodes, parent), 2nat, args.len() - k,
{
    if !(0 <= k < args.len()) {
        Seq::empty()
    } else {
        render_generic(src, nodes, parent, args[k]) + separator(k, args.len() as int)
            + render_generics(src, nodes, parent, args, k + 1)
    }
}

/// The texts of the bindings `bindings[k..]` of a trait of the node in slot
/// `parent`, each `name = type`, with `, ` between them.
pub open spec fn render_bindings(
    src: Seq<u8>,
    nodes: Seq<TypeModel>,
    parent: int,
    bindings: Seq<Binding>,
    k: int,
) -> Seq<char>
    decreases height(nodes, parent), 1nat, bindings.len() - k,
{
    if !(0 <= k < bindings.len()) {
        Seq::empty()
    } else {
        span_text(src, bindings[k].name) + " = "@ + render_child(src, nodes, parent, bindings[k].ty)
            + separator(k, bindings.len() as int) + render_bindings(
            src,
            nodes,
            parent,
            bindings,
            k + 1,
        )
    }
}

/// The text of one trait of the node in slot `parent`: its path and, if it
/// has bindings, the bindings between `<` and `>`.
pub open spec fn render_bound(src: Seq<u8>, nodes: Seq<TypeModel>, parent: int, bound: BoundModel) -> Seq<
    char,
>
    decreases height(nodes, parent), 2nat, 0nat,
{
    render_child(src, nodes, parent, bound.path) + (if bound.bindings.len() > 0 {
        seq!['<'] + render_bindings(src, nodes, parent, bound.bindings, 0) + seq!['>']
    } else {
        Seq::empty()
    })
}

/// The texts of the traits `traits[k..]` of the node in slot `parent`, one
/// after the other.
pub open spec fn render_bounds(
    src: Seq<u8>,
    nodes: Seq<TypeModel>,
    parent: int,
    traits: Seq<BoundModel>,
    k: int,
) -> Seq<char>
    decreases height(nodes, parent), 2nat, traits.len() - k + 1,
{
    if !(0 <= k < traits.len()) {
        Seq::empty()
    } else {
        render_bound(src, nodes, parent, traits[k]) + render_bounds(src, nodes, parent, traits, k + 1)
    }
}

} // verus!
