use super::ast::{Type, TypeModel};
use vstd::prelude::*;

verus! {

/// The name of the primitive that a tag byte stands for.
pub open spec fn basic_name(tag: u8) -> Option<Seq<char>> {
    if tag == 'b' as u8 {
        Some("bool"@)
    } else if tag == 'c' as u8 {
        Some("char"@)
    } else if tag == 'e' as u8 {
        Some("str"@)
    } else if tag == 'u' as u8 {
        Some("()"@)
    } else if tag == 'a' as u8 {
        Some("i8"@)
    } else if tag == 's' as u8 {
        Some("i16"@)
    } else if tag == 'l' as u8 {
        Some("i32"@)
    } else if tag == 'x' as u8 {
        Some("i64"@)
    } else if tag == 'n' as u8 {
        Some("i128"@)
    } else if tag == 'i' as u8 {
        Some("isize"@)
    } else if tag == 'h' as u8 {
        Some("u8"@)
    } else if tag == 't' as u8 {
        Some("u16"@)
    } else if tag == 'm' as u8 {
        Some("u32"@)
    } else if tag == 'y' as u8 {
        Some("u64"@)
    } else if tag == 'o' as u8 {
        Some("u128"@)
    } else if tag == 'j' as u8 {
        Some("usize"@)
    } else if tag == 'f' as u8 {
        Some("f32"@)
    } else if tag == 'd' as u8 {
        Some("f64"@)
    } else if tag == 'z' as u8 {
        Some("!"@)
    } else if tag == 'p' as u8 {
        Some("_"@)
    } else if tag == 'v' as u8 {
        Some("..."@)
    } else {
        None
    }
}

/// How the value of a constant is written, by the tag of its type.
#[derive(Debug, PartialEq, Eq, Clone, Copy, Structural)]
pub enum ConstKind {
    /// The inferred constant `_`, which has no value.
    Inferred,
    /// A signed or unsigned integer, written in hexadecimal.
    Integer,
    /// A character, written as its code in hexadecimal.
    Char,
}

/// The kind of constant that a primitive can be the type of. Primitives
/// without a kind cannot be the type of a constant.
pub open spec fn const_kind(tag: u8) -> Option<ConstKind> {
    if tag == 'p' as u8 {
        Some(ConstKind::Inferred)
    } else if tag == 'c' as u8 {
        Some(ConstKind::Char)
    } else if tag == 'a' as u8 || tag == 's' as u8 || tag == 'l' as u8 || tag == 'x' as u8
        || tag == 'n' as u8 || tag == 'i' as u8 || tag == 'h' as u8 || tag == 't' as u8 || tag
        == 'm' as u8 || tag == 'y' as u8 || tag == 'o' as u8 || tag == 'j' as u8 {
        Some(ConstKind::Integer)
    } else {
        None
    }
}

/// Whether a node can be the type of a constant.
pub open spec fn is_const_type(node: TypeModel) -> bool {
    match node {
        TypeModel::Basic(tag) => const_kind(tag).is_some(),
        _ => false,
    }
}

/// The name of the primitive that a tag byte stands for, if it stands for one.
pub fn basic_types(tag: u8) -> (name: Option<&'static str>)
    ensures
        match name {
            Some(name) => basic_name(tag) == Some(name@),
            None => basic_name(tag).is_none(),
        },
{
    if tag == 'b' as u8 {
        Some("bool")
    } else if tag == 'c' as u8 {
        Some("char")
    } else if tag == 'e' as u8 {
        Some("str")
    } else if tag == 'u' as u8 {
        Some("()")
    } else if tag == 'a' as u8 {
        Some("i8")
    } else if tag == 's' as u8 {
        Some("i16")
    } else if tag == 'l' as u8 {
        Some("i32")
    } else if tag == 'x' as u8 {
        Some("i64")
    } else if tag == 'n' as u8 {
        Some("i128")
    } else if tag == 'i' as u8 {
        Some("isize")
    } else if tag == 'h' as u8 {
        Some("u8")
    } else if tag == 't' as u8 {
        Some("u16")
    } else if tag == 'm' as u8 {
        Some("u32")
    } else if tag == 'y' as u8 {
        Some("u64")
    } else if tag == 'o' as u8 {
        Some("u128")
    } else if tag == 'j' as u8 {
        Some("usize")
    } else if tag == 'f' as u8 {
        Some("f32")
    } else if tag == 'd' as u8 {
        Some("f64")
    } else if tag == 'z' as u8 {
        Some("!")
    } else if tag == 'p' as u8 {
        Some("_")
    } else if tag == 'v' as u8 {
        Some("...")
    } else {
        None
    }
}

/// The kind of constant that the primitive with this tag can be the type of.
pub fn const_kind_of(tag: u8) -> (kind: Option<ConstKind>)
    ensures
        kind == const_kind(tag),
{
    if tag == 'p' as u8 {
        Some(ConstKind::Inferred)
    } else if tag == 'c' as u8 {
        Some(ConstKind::Char)
    } else if tag == 'a' as u8 || tag == 's' as u8 || tag == 'l' as u8 || tag == 'x' as u8
        || tag == 'n' as u8 || tag == 'i' as u8 || tag == 'h' as u8 || tag == 't' as u8 || tag
        == 'm' as u8 || tag == 'y' as u8 || tag == 'o' as u8 || tag == 'j' as u8 {
        Some(ConstKind::Integer)
    } else {
        None
    }
}

/// Whether a node can be the type of a constant.
pub fn can_type_const(node: &Type) -> (ok: bool)
    ensures
        ok == is_const_type(node@),
{
    match node {
        Type::Basic(tag) => const_kind_of(*tag).is_some(),
        _ => false,
    }
}

} // verus!
