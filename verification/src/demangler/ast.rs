use super::error::Error;
use vstd::prelude::*;

verus! {

/// How many nodes one symbol may hold.
pub const MAX_COMPLEXITY: usize = 256;

/// How many path and type productions may be open at once, one inside the
/// other.
pub const MAX_DEPTH: usize = 100;

/// What kind of item a nested path names.
#[derive(Debug, PartialEq, Eq, Clone, Copy, Structural)]
pub enum Namespace {
    Unknown,
    Value,
    Type,
    Closure,
}

/// A lifetime by its number; 0 is the elided lifetime.
#[derive(Debug, PartialEq, Eq, Clone, Copy, Structural)]
pub struct Lifetime(pub usize);

/// The bytes `start..end` of the symbol's source.
#[derive(Debug, PartialEq, Eq, Clone, Copy, Structural)]
pub struct Span {
    pub start: usize,
    pub end: usize,
}

/// A constant: the slot of its type and the span of its value text.
#[derive(Debug, PartialEq, Eq, Clone, Copy, Structural)]
pub struct Const {
    pub neg: bool,
    pub ty: usize,
    pub data: Span,
}

/// One argument of a generic instantiation.
#[derive(Debug, PartialEq, Eq, Clone, Copy, Structural)]
pub enum Generic {
    Lifetime(Lifetime),
    Type(usize),
    Const(Const),
}

/// An associated-type binding `name = type` of a trait object.
#[derive(Debug, PartialEq, Eq, Clone, Copy, Structural)]
pub struct Binding {
    pub name: Span,
    pub ty: usize,
}

/// One trait of a trait object, with its bindings.
#[derive(Debug, PartialEq, Eq)]
pub struct DynBound {
    pub path: usize,
    pub bindings: Vec<Binding>,
}

/// A path node. Children are named by their slot in the arena.
#[derive(Debug, PartialEq, Eq)]
pub enum Path {
    /// `[disambiguator] <ident>`: a crate root.
    Crate(Option<usize>, Span),
    /// `<T>`
    InherentImpl(usize),
    /// `<T as Trait>`
    Trait(usize, usize),
    /// `...::ident`
    Nested(Namespace, usize, Option<usize>, Span),
    /// `...<T1, T2, ...>`
    Generic(usize, Vec<Generic>),
}

/// A node of the arena.
#[derive(Debug, PartialEq, Eq)]
pub enum Type {
    /// A reserved slot that no production has filled yet.
    Empty,
    /// A primitive, by its tag byte.
    Basic(u8),
    /// A named type.
    Path(Path),
    /// `[T; N]`
    Array(usize, Const),
    /// `[T]`
    Slice(usize),
    /// `(T, T, ...)`
    Tuple(Vec<usize>),
    /// `&T`
    Ref(Option<Lifetime>, usize),
    /// `&mut T`
    RefMut(Option<Lifetime>, usize),
    /// `*const T`
    Pointer(usize),
    /// `*mut T`
    PointerMut(usize),
    /// `fn(...) -> ...`: binder, unsafety, name, arguments, return type.
    FnSig(Option<usize>, bool, Option<Span>, Vec<usize>, Option<usize>),
    /// `dyn Trait<name = type> + 'lifetime`
    DynTrait(Option<usize>, Vec<DynBound>, Lifetime),
}

/// The mathematical value of a [`DynBound`].
pub struct BoundModel {
    pub path: usize,
    pub bindings: Seq<Binding>,
}

/// The mathematical value of a [`Path`].
pub enum PathModel {
    Crate(Option<usize>, Span),
    InherentImpl(usize),
    Trait(usize, usize),
    Nested(Namespace, usize, Option<usize>, Span),
    Generic(usize, Seq<Generic>),
}

/// The mathematical value of a [`Type`].
pub enum TypeModel {
    Empty,
    Basic(u8),
    Path(PathModel),
    Array(usize, Const),
    Slice(usize),
    Tuple(Seq<usize>),
    Ref(Option<Lifetime>, usize),
    RefMut(Option<Lifetime>, usize),
    Pointer(usize),
    PointerMut(usize),
    FnSig(Option<usize>, bool, Option<Span>, Seq<usize>, Option<usize>),
    DynTrait(Option<usize>, Seq<BoundModel>, Lifetime),
}

impl View for DynBound {
    type V = BoundModel;

    open spec fn view(&self) -> BoundModel {
        BoundModel { path: self.path, bindings: self.bindings@ }
    }
}

/// The values of a list of trait bounds.
pub open spec fn bound_models(bounds: Seq<DynBound>) -> Seq<BoundModel> {
    Seq::new(bounds.len(), |i: int| bounds[i]@)
}

impl View for Path {
    type V = PathModel;

    open spec fn view(&self) -> PathModel {
        match *self {
            Path::Crate(id, name) => PathModel::Crate(id, name),
            Path::InherentImpl(ty) => PathModel::InherentImpl(ty),
            Path::Trait(ty, path) => PathModel::Trait(ty, path),
            Path::Nested(ns, parent, id, name) => PathModel::Nested(ns, parent, id, name),
            Path::Generic(base, args) => PathModel::Generic(base, args@),
        }
    }
}

impl View for Type {
    type V = TypeModel;

    open spec fn view(&self) -> TypeModel {
        match *self {
            Type::Empty => TypeModel::Empty,
            Type::Basic(tag) => TypeModel::Basic(tag),
            Type::Path(path) => TypeModel::Path(path@),
            Type::Array(elem, len) => TypeModel::Array(elem, len),
            Type::Slice(elem) => TypeModel::Slice(elem),
            Type::Tuple(elems) => TypeModel::Tuple(elems@),
            Type::Ref(lifetime, ty) => TypeModel::Ref(lifetime, ty),
            Type::RefMut(lifetime, ty) => TypeModel::RefMut(lifetime, ty),
            Type::Pointer(ty) => TypeModel::Pointer(ty),
            Type::PointerMut(ty) => TypeModel::PointerMut(ty),
            Type::FnSig(binder, is_unsafe, name, args, ret) => TypeModel::FnSig(
                binder,
                is_unsafe,
                name,
                args@,
                ret,
            ),
            Type::DynTrait(binder, bounds, lifetime) => TypeModel::DynTrait(
                binder,
                bound_models(bounds@),
                lifetime,
            ),
        }
    }
}

/// The values of a list of nodes.
pub open spec fn type_models(nodes: Seq<Type>) -> Seq<TypeModel> {
    Seq::new(nodes.len(), |i: int| nodes[i]@)
}

/// The node arena: a table of at most [`MAX_COMPLEXITY`] nodes, addressed by
/// slot. Slots are handed out in increasing order and never taken back.
pub struct Stack {
    stack: Vec<Type>,
}

impl View for Stack {
    type V = Seq<TypeModel>;

    closed spec fn view(&self) -> Seq<TypeModel> {
        type_models(self.stack@)
    }
}

impl Stack {
    /// An arena without nodes.
    pub fn new() -> (arena: Stack)
        ensures
            arena@ == Seq::<TypeModel>::empty(),
    {
        let arena = Stack { stack: Vec::new() };
        assert(arena@ =~= Seq::<TypeModel>::empty());
        arena
    }

    /// The number of slots handed out, which is the next slot.
    pub fn ptr(&self) -> (n: usize)
        ensures
            n == self@.len(),
    {
        self.stack.len()
    }

    /// Reserves the next slot, which holds [`Type::Empty`] until it is set.
    /// A full arena refuses with [`Error::TooComplex`] and stays as it is.
    pub fn take_spot(&mut self) -> (spot: Result<usize, Error>)
        ensures
            old(self)@.len() < MAX_COMPLEXITY ==> spot == Ok::<usize, Error>(
                old(self)@.len() as usize,
            ) && final(self)@ == old(self)@.push(TypeModel::Empty),
            old(self)@.len() >= MAX_COMPLEXITY ==> spot == Err::<usize, Error>(Error::TooComplex)
                && final(self)@ == old(self)@,
    {
        let spot = self.stack.len();
        if spot >= MAX_COMPLEXITY {
            return Err(Error::TooComplex);
        }
        self.stack.push(Type::Empty);
        assert(self@ =~= old(self)@.push(TypeModel::Empty));
        Ok(spot)
    }

    /// Stores `node` in the reserved slot `spot`.
    pub fn set(&mut self, spot: usize, node: Type)
        requires
            spot < old(self)@.len(),
        ensures
            final(self)@ == old(self)@.update(spot as int, node@),
    {
        self.stack[spot] = node;
        assert(self@ =~= old(self)@.update(spot as int, node@));
    }

    /// The node in slot `idx`.
    pub fn get(&self, idx: usize) -> (node: &Type)
        requires
            idx < self@.len(),
        ensures
            node@ == self@[idx as int],
    {
        &self.stack[idx]
    }
}

} // verus!
