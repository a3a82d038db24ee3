use super::ast::{
    Binding, BoundModel, Const, Generic, PathModel, Span, TypeModel, MAX_COMPLEXITY,
};
use super::primitive::{basic_name, is_const_type};
use vstd::prelude::*;

verus! {

/// Whether the node in slot `parent` of an arena of `len` nodes may name
/// `child`: children come after their parent.
pub open spec fn child_ok(child: usize, parent: int, len: int) -> bool {
    parent < child < len
}

/// Whether `span` lies in a source of `n` bytes.
pub open spec fn span_ok(span: Span, n: int) -> bool {
    span.start <= span.end <= n
}

/// Whether the node in slot `parent` of `nodes` may hold the constant
/// `value`: the type of the constant is a child, and a primitive that
/// constants can have.
pub open spec fn const_ok(nodes: Seq<TypeModel>, value: Const, parent: int, n: int) -> bool {
    &&& child_ok(value.ty, parent, nodes.len() as int)
    &&& span_ok(value.data, n)
    &&& is_const_type(nodes[value.ty as int])
}

pub open spec fn generic_ok(nodes: Seq<TypeModel>, arg: Generic, parent: int, n: int) -> bool {
    match arg {
        Generic::Lifetime(_) => true,
        Generic::Type(ty) => child_ok(ty, parent, nodes.len() as int),
        Generic::Const(value) => const_ok(nodes, value, parent, n),
    }
}

pub open spec fn binding_ok(binding: Binding, parent: int, len: int, n: int) -> bool {
    child_ok(binding.ty, parent, len) && span_ok(binding.name, n)
}

pub open spec fn bound_ok(bound: BoundModel, parent: int, len: int, n: int) -> bool {
    &&& child_ok(bound.path, parent, len)
    &&& forall|k: int|
        0 <= k < bound.bindings.len() ==> binding_ok(#[trigger] bound.bindings[k], parent, len, n)
}

pub open spec fn path_ok(nodes: Seq<TypeModel>, path: PathModel, parent: int, n: int) -> bool {
    let len = nodes.len() as int;
    match path {
        PathModel::Crate(_, name) => span_ok(name, n),
        PathModel::InherentImpl(ty) => child_ok(ty, parent, len),
        PathModel::Trait(ty, tr) => child_ok(ty, parent, len) && child_ok(tr, parent, len),
        PathModel::Nested(_, up, _, name) => child_ok(up, parent, len) && span_ok(name, n),
        PathModel::Generic(base, args) => {
            &&& child_ok(base, parent, len)
            &&& forall|k: int| 0 <= k < args.len() ==> generic_ok(nodes, #[trigger] args[k], parent, n)
        },
    }
}

/// Whether `node` can stand in slot `at` of the arena `nodes` over a source
/// of `n` bytes: it is filled, its children come after it and inside the
/// arena, its spans lie in the source, and its constants have types that
/// constants can have.
pub open spec fn node_ok(nodes: Seq<TypeModel>, node: TypeModel, at: int, n: int) -> bool {
    let len = nodes.len() as int;
    match node {
        TypeModel::Empty => false,
        TypeModel::Basic(tag) => basic_name(tag).is_some(),
        TypeModel::Path(path) => path_ok(nodes, path, at, n),
        TypeModel::Array(elem, size) => child_ok(elem, at, len) && const_ok(nodes, size, at, n),
        TypeModel::Slice(elem) => child_ok(elem, at, len),
        TypeModel::Tuple(elems) => forall|k: int|
            0 <= k < elems.len() ==> child_ok(#[trigger] elems[k], at, len),
        TypeModel::Ref(_, ty) => child_ok(ty, at, len),
        TypeModel::RefMut(_, ty) => child_ok(ty, at, len),
        TypeModel::Pointer(ty) => child_ok(ty, at, len),
        TypeModel::PointerMut(ty) => child_ok(ty, at, len),
        TypeModel::FnSig(_, _, name, args, ret) => {
            &&& name matches Some(span) ==> span_ok(span, n)
            &&& forall|k: int| 0 <= k < args.len() ==> child_ok(#[trigger] args[k], at, len)
            &&& ret matches Some(ty) ==> child_ok(ty, at, len)
        },
        TypeModel::DynTrait(_, traits, _) => forall|k: int|
            0 <= k < traits.len() ==> bound_ok(#[trigger] traits[k], at, len, n),
    }
}

/// Whether `nodes` is the arena of a parsed symbol over a source of `n`
/// bytes: it has a root, it is within capacity, and every node is in order.
pub open spec fn well_formed(nodes: Seq<TypeModel>, n: int) -> bool {
    &&& 0 < nodes.len() <= MAX_COMPLEXITY
    &&& forall|i: int| 0 <= i < nodes.len() ==> node_ok(nodes, #[trigger] nodes[i], i, n)
}

/// Whether the arena `after` holds what `before` holds in the slots behind
/// `at`, and maybe more nodes behind those.
pub open spec fn agree_behind(before: Seq<TypeModel>, after: Seq<TypeModel>, at: int) -> bool {
    &&& before.len() <= after.len()
    &&& forall|j: int| at < j < before.len() ==> #[trigger] after[j] == before[j]
}

/// Whether the arena `after` still holds every node of `before` in its
/// slot, and maybe more behind them.
pub open spec fn keeps(before: Seq<TypeModel>, after: Seq<TypeModel>) -> bool {
    &&& before.len() <= after.len()
    &&& forall|i: int| 0 <= i < before.len() ==> #[trigger] after[i] == before[i]
}

/// How the arena `after` comes from the arena `before` when a production
/// has run: the nodes that were there are untouched, and the new ones are
/// all in order.
pub open spec fn extends(before: Seq<TypeModel>, after: Seq<TypeModel>, n: int) -> bool {
    &&& before.len() <= after.len()
    &&& forall|i: int| 0 <= i < before.len() ==> #[trigger] after[i] == before[i]
    &&& forall|i: int| before.len() <= i < after.len() ==> node_ok(after, #[trigger] after[i], i, n)
}

/// A generic argument that is in order stays so when the arena grows behind
/// its parent and the parent moves to the front.
pub proof fn lemma_generic_ok_grows(
    before: Seq<TypeModel>,
    after: Seq<TypeModel>,
    arg: Generic,
    at: int,
    front: int,
    n: int,
)
    requires
        generic_ok(before, arg, at, n),
        agree_behind(before, after, at),
        front <= at,
    ensures
        generic_ok(after, arg, front, n),
{
    match arg {
        Generic::Const(value) => {
            assert(after[value.ty as int] == before[value.ty as int]);
        },
        _ => {},
    }
}

/// A node that is in order stays so when the arena grows behind it.
pub proof fn lemma_node_ok_grows(
    before: Seq<TypeModel>,
    after: Seq<TypeModel>,
    node: TypeModel,
    at: int,
    n: int,
)
    requires
        node_ok(before, node, at, n),
        agree_behind(before, after, at),
    ensures
        node_ok(after, node, at, n),
{
    match node {
        TypeModel::Path(PathModel::Generic(base, args)) => {
            assert forall|k: int| 0 <= k < args.len() implies generic_ok(
                after,
                #[trigger] args[k],
                at,
                n,
            ) by {
                lemma_generic_ok_grows(before, after, args[k], at, at, n);
            }
        },
        TypeModel::Array(elem, size) => {
            assert(after[size.ty as int] == before[size.ty as int]);
        },
        TypeModel::DynTrait(_, traits, _) => {
            assert forall|k: int| 0 <= k < traits.len() implies bound_ok(
                #[trigger] traits[k],
                at,
                after.len() as int,
                n,
            ) by {
                assert(bound_ok(traits[k], at, before.len() as int, n));
                assert forall|j: int| 0 <= j < traits[k].bindings.len() implies binding_ok(
                    #[trigger] traits[k].bindings[j],
                    at,
                    after.len() as int,
                    n,
                ) by {
                    assert(binding_ok(traits[k].bindings[j], at, before.len() as int, n));
                }
            }
        },
        _ => {},
    }
}

/// Two productions in a row extend the arena as one.
pub proof fn lemma_extends_twice(a: Seq<TypeModel>, b: Seq<TypeModel>, c: Seq<TypeModel>, n: int)
    requires
        extends(a, b, n),
        extends(b, c, n),
    ensures
        extends(a, c, n),
{
    assert forall|i: int| a.len() <= i < c.len() implies node_ok(c, #[trigger] c[i], i, n) by {
        if i < b.len() {
            assert(c[i] == b[i]);
            lemma_node_ok_grows(b, c, b[i], i, n);
        }
    }
}

/// A production that reserves a slot, lets others extend the arena behind
/// it, and then fills the slot with a node that is in order, has extended
/// the arena itself.
pub proof fn lemma_fill_extends(before: Seq<TypeModel>, mid: Seq<TypeModel>, node: TypeModel, n: int)
    requires
        extends(before.push(TypeModel::Empty), mid, n),
        node_ok(mid, node, before.len() as int, n),
    ensures
        extends(before, mid.update(before.len() as int, node), n),
{
    let reserved = before.push(TypeModel::Empty);
    let after = mid.update(before.len() as int, node);
    assert forall|i: int| 0 <= i < before.len() implies #[trigger] after[i] == before[i] by {
        assert(mid[i] == reserved[i]);
    }
    assert forall|i: int| before.len() <= i < after.len() implies node_ok(
        after,
        #[trigger] after[i],
        i,
        n,
    ) by {
        if i > before.len() {
            assert(node_ok(mid, mid[i], i, n));
            lemma_node_ok_grows(mid, after, mid[i], i, n);
        } else {
            lemma_node_ok_grows(mid, after, node, i, n);
        }
    }
}

} // verus!
