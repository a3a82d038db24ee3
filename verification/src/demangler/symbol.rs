use super::ast::{
    bound_models, Binding, Const, DynBound, Generic, Lifetime, Namespace, Path, PathModel, Span,
    Stack, Type, TypeModel,
};
use super::cursor::Cursor;
use super::error::Error;
use super::grammar;
use super::grammar::Ast;
use super::parser::Parser;
use super::primitive::{basic_types, const_kind_of, is_const_type, ConstKind};
use super::render::{
    height, is_type_path, render_bindings, render_bound, render_bounds, render_child,
    render_closure, render_const, render_generic, render_generics, render_list, render_node,
    render_ref, separator, span_text,
};
use super::text::{code_to_char, fmt_unsigned, hex_value, push_span};
use super::wellformed::{
    binding_ok, bound_ok, child_ok, generic_ok, node_ok, path_ok, span_ok, well_formed,
};
use vstd::prelude::*;
use vstd::string::StringExecFns;
use vstd::string::StringSliceAdditionalSpecFns;

verus! {

/// A demangled symbol: the bytes behind the prefix, and the arena that one
/// path production has filled from them, root in slot 0.
pub struct Symbol {
    ast: Stack,
    source: Cursor,
}

impl View for Symbol {
    type V = Ast;

    closed spec fn view(&self) -> Ast {
        Ast { source: self.source.bytes(), nodes: self.ast@ }
    }
}

impl Symbol {
    #[verifier::type_invariant]
    spec fn wf(&self) -> bool {
        well_formed(self.ast@, self.source.bytes().len() as int)
    }

    /// Demangles a symbol: strips the prefix, refuses what is empty or not
    /// ASCII behind it, and parses one path into a fresh arena. The answer
    /// is what [`grammar::demangle`] gives for the bytes of `s`, and the
    /// arena of a symbol that comes back is well formed.
    pub fn parse(s: &str) -> (r: Result<Symbol, Error>)
        ensures
            match r {
                Ok(symbol) => grammar::demangle(s.spec_bytes()) == Ok::<Ast, Error>(symbol@)
                    && well_formed(symbol@.nodes, symbol@.source.len() as int),
                Err(e) => grammar::demangle(s.spec_bytes()) == Err::<Ast, Error>(e),
            },
    {
        let text = s.as_bytes();
        let len = text.len();
        let skip: usize = if len >= 2 && text[0] == '_' as u8 && text[1] == 'R' as u8 {
            2
        } else if len >= 1 && text[0] == 'R' as u8 {
            1
        } else if len >= 3 && text[0] == '_' as u8 && text[1] == '_' as u8 && text[2] == 'R' as u8 {
            3
        } else {
            return Err(Error::UnknownPrefix);
        };
        if skip == len {
            proof {
                assert(text@.subrange(skip as int, len as int).len() == 0);
            }
            return Err(Error::SymbolTooSmall);
        }
        let ghost rest = text@.subrange(skip as int, len as int);
        let mut source: Vec<u8> = Vec::new();
        let mut i: usize = skip;
        while i < len
            invariant
                skip <= i <= len,
                len == text@.len(),
                rest == text@.subrange(skip as int, len as int),
                text@ == s.spec_bytes(),
                grammar::strip_prefix(text@) == Some(rest),
                source@ == text@.subrange(skip as int, i as int),
                forall|j: int| 0 <= j < i - skip ==> #[trigger] rest[j] < 0x80,
            decreases len - i,
        {
            if text[i] >= 0x80 {
                proof {
                    assert(rest[i - skip] >= 0x80);
                    assert(!grammar::is_ascii(rest));
                }
                return Err(Error::NotAscii);
            }
            source.push(text[i]);
            i = i + 1;
            proof {
                assert(source@ =~= text@.subrange(skip as int, i as int));
            }
        }
        proof {
            assert(source@ =~= rest);
            assert(grammar::is_ascii(rest));
        }
        let mut parser = Parser::new(source);
        match parser.consume_path() {
            Ok(()) => {},
            Err(e) => {
                return Err(e);
            },
        }
        let (ast, source) = parser.finish();
        if ast.ptr() == 0 {
            return Err(Error::Invalid);
        }
        Ok(Symbol { ast, source })
    }

    /// The symbol as source-level text: the text of the root, as
    /// [`render_node`] gives it.
    pub fn display(&self) -> (text: String)
        ensures
            text@ == render_node(self@.source, self@.nodes, 0),
    {
        proof {
            use_type_invariant(self);
        }
        let mut name = String::new();
        self.fmt(&mut name, 0);
        proof {
            assert(name@ =~= render_node(self@.source, self@.nodes, 0));
        }
        name
    }

    /// Appends the text of the node in slot `at`.
    fn fmt(&self, repr: &mut String, at: usize)
        requires
            at < self@.nodes.len(),
        ensures
            final(repr)@ == old(repr)@ + render_node(self@.source, self@.nodes, at as int),
        decreases height(self@.nodes, at as int), 3nat, 0nat,
    {
        proof {
            use_type_invariant(self);
            assert(node_ok(self@.nodes, self@.nodes[at as int], at as int, self@.source.len() as int));
        }
        let ghost src = self@.source;
        let ghost nodes = self@.nodes;
        let ghost before = repr@;
        match self.ast.get(at) {
            Type::Empty => {},
            Type::Basic(tag) => {
                match basic_types(*tag) {
                    Some(name) => {
                        repr.append(name);
                    },
                    None => {},
                }
            },
            Type::Path(path) => {
                self.fmt_path(repr, at, path);
            },
            Type::Array(elem, size) => {
                repr.push('[');
                self.fmt(repr, *elem);
                repr.append("; ");
                self.fmt_const(repr, size);
                repr.push(']');
            },
            Type::Slice(elem) => {
                repr.push('[');
                self.fmt(repr, *elem);
                repr.push(']');
            },
            Type::Tuple(elems) => {
                assert(node_ok(nodes, TypeModel::Tuple(elems@), at as int, src.len() as int));
                repr.push('(');
                self.fmt_list(repr, at, elems);
                repr.push(')');
            },
            Type::Ref(lifetime, ty) => {
                fmt_ref(repr, *lifetime, false);
                self.fmt(repr, *ty);
            },
            Type::RefMut(lifetime, ty) => {
                fmt_ref(repr, *lifetime, true);
                self.fmt(repr, *ty);
            },
            Type::Pointer(ty) => {
                repr.append("*const ");
                self.fmt(repr, *ty);
            },
            Type::PointerMut(ty) => {
                repr.append("*mut ");
                self.fmt(repr, *ty);
            },
            Type::FnSig(binder, is_unsafe, name, args, ret) => {
                assert(node_ok(
                    nodes,
                    TypeModel::FnSig(*binder, *is_unsafe, *name, args@, *ret),
                    at as int,
                    src.len() as int,
                ));
                if *is_unsafe {
                    repr.append("unsafe ");
                }
                match name {
                    Some(name) => {
                        repr.append("fn ");
                        push_span(repr, self.source.buf(), *name);
                        repr.push('(');
                    },
                    None => {
                        repr.append("fn(");
                    },
                }
                self.fmt_list(repr, at, args);
                repr.push(')');
                match ret {
                    Some(ret) => {
                        repr.append(" -> ");
                        self.fmt(repr, *ret);
                    },
                    None => {},
                }
            },
            Type::DynTrait(binder, traits, lifetime) => {
                assert(node_ok(
                    nodes,
                    TypeModel::DynTrait(*binder, bound_models(traits@), *lifetime),
                    at as int,
                    src.len() as int,
                ));
                repr.append("dyn ");
                self.fmt_bounds(repr, at, traits);
                match lifetime.fmt() {
                    Some(letter) => {
                        repr.append(" + '");
                        repr.push(letter);
                    },
                    None => {},
                }
            },
        }
        proof {
            assert(repr@ =~= before + render_node(src, nodes, at as int));
        }
    }

    /// Appends the text of the path in slot `at`.
    fn fmt_path(&self, repr: &mut String, at: usize, path: &Path)
        requires
            at < self@.nodes.len(),
            self@.nodes[at as int] == TypeModel::Path(path@),
        ensures
            final(repr)@ == old(repr)@ + render_node(self@.source, self@.nodes, at as int),
        decreases height(self@.nodes, at as int), 2nat, 1nat,
    {
        proof {
            use_type_invariant(self);
            assert(node_ok(self@.nodes, self@.nodes[at as int], at as int, self@.source.len() as int));
        }
        let ghost src = self@.source;
        let ghost nodes = self@.nodes;
        let ghost before = repr@;
        match path {
            Path::Crate(_, name) => {
                push_span(repr, self.source.buf(), *name);
            },
            Path::Nested(namespace, up, id, name) => {
                self.fmt(repr, *up);
                repr.append("::");
                if *namespace == Namespace::Closure {
                    fmt_closure(repr, self.source.buf(), *id, *name);
                } else {
                    push_span(repr, self.source.buf(), *name);
                }
            },
            Path::Generic(base, args) => {
                assert(path@ == PathModel::Generic(*base, args@));
                assert(path_ok(nodes, path@, at as int, src.len() as int));
                assert forall|k: int| 0 <= k < args@.len() implies generic_ok(
                    nodes,
                    #[trigger] args@[k],
                    at as int,
                    src.len() as int,
                ) by {
                    assert(path_ok(
                        nodes,
                        PathModel::Generic(*base, args@),
                        at as int,
                        src.len() as int,
                    ));
                }
                self.fmt(repr, *base);
                if self.holds_type_path(*base) {
                    repr.push('<');
                } else {
                    repr.append("::<");
                }
                self.fmt_generics(repr, at, args);
                repr.push('>');
            },
            Path::InherentImpl(ty) => {
                repr.push('<');
                self.fmt(repr, *ty);
                repr.push('>');
            },
            Path::Trait(ty, tr) => {
                repr.push('<');
                self.fmt(repr, *ty);
                repr.append(" as ");
                self.fmt(repr, *tr);
                repr.push('>');
            },
        }
        proof {
            assert(repr@ =~= before + render_node(src, nodes, at as int));
        }
    }

    /// Whether slot `idx` holds a nested path in the type namespace.
    fn holds_type_path(&self, idx: usize) -> (found: bool)
        requires
            idx < self@.nodes.len(),
        ensures
            found == is_type_path(self@.nodes, idx),
    {
        match self.ast.get(idx) {
            Type::Path(Path::Nested(namespace, _, _, _)) => *namespace == Namespace::Type,
            _ => false,
        }
    }

    /// Appends the texts of the children `list` of the node in slot `at`.
    fn fmt_list(&self, repr: &mut String, at: usize, list: &Vec<usize>)
        requires
            at < self@.nodes.len(),
            forall|k: int|
                0 <= k < list@.len() ==> child_ok(
                    #[trigger] list@[k],
                    at as int,
                    self@.nodes.len() as int,
                ),
        ensures
            final(repr)@ == old(repr)@ + render_list(
                self@.source,
                self@.nodes,
                at as int,
                list@,
                0,
            ),
        decreases height(self@.nodes, at as int), 2nat, 0nat,
    {
        let ghost src = self@.source;
        let ghost nodes = self@.nodes;
        let mut k: usize = 0;
        while k < list.len()
            invariant
                0 <= k <= list@.len(),
                at < self@.nodes.len(),
                src == self@.source,
                nodes == self@.nodes,
                forall|k: int|
                    0 <= k < list@.len() ==> child_ok(
                        #[trigger] list@[k],
                        at as int,
                        self@.nodes.len() as int,
                    ),
                repr@ + render_list(src, nodes, at as int, list@, k as int) == old(repr)@
                    + render_list(src, nodes, at as int, list@, 0),
            decreases list@.len() - k,
        {
            let ghost was = repr@;
            assert(child_ok(list@[k as int], at as int, nodes.len() as int));
            self.fmt(repr, list[k]);
            let ghost item = render_child(src, nodes, at as int, list@[k as int]);
            assert(repr@ == was + item);
            if k + 1 != list.len() {
                repr.append(", ");
            }
            let ghost sep = separator(k as int, list@.len() as int);
            assert(repr@ == was + item + sep);
            let ghost rest = render_list(src, nodes, at as int, list@, k + 1);
            assert(render_list(src, nodes, at as int, list@, k as int) == item + sep + rest);
            k = k + 1;
            proof {
                assert(repr@ + rest =~= was + (item + sep + rest));
            }
        }
        proof {
            assert(repr@ =~= old(repr)@ + render_list(src, nodes, at as int, list@, 0));
        }
    }

    /// Appends the texts of the generic arguments `args` of the node in slot
    /// `at`.
    fn fmt_generics(&self, repr: &mut String, at: usize, args: &Vec<Generic>)
        requires
            at < self@.nodes.len(),
            forall|k: int|
                0 <= k < args@.len() ==> generic_ok(
                    self@.nodes,
                    #[trigger] args@[k],
                    at as int,
                    self@.source.len() as int,
                ),
        ensures
            final(repr)@ == old(repr)@ + render_generics(
                self@.source,
                self@.nodes,
                at as int,
                args@,
                0,
            ),
        decreases height(self@.nodes, at as int), 2nat, 0nat,
    {
        let ghost src = self@.source;
        let ghost nodes = self@.nodes;
        let mut k: usize = 0;
        while k < args.len()
            invariant
                0 <= k <= args@.len(),
                at < self@.nodes.len(),
                src == self@.source,
                nodes == self@.nodes,
                forall|k: int|
                    0 <= k < args@.len() ==> generic_ok(
                        self@.nodes,
                        #[trigger] args@[k],
                        at as int,
                        self@.source.len() as int,
                    ),
                repr@ + render_generics(src, nodes, at as int, args@, k as int) == old(repr)@
                    + render_generics(src, nodes, at as int, args@, 0),
            decreases args@.len() - k,
        {
            let ghost was = repr@;
            assert(generic_ok(nodes, args@[k as int], at as int, src.len() as int));
            match &args[k] {
                Generic::Lifetime(lifetime) => {
                    repr.push('\'');
                    match lifetime.fmt() {
                        Some(letter) => {
                            repr.push(letter);
                        },
                        None => {
                            repr.push('_');
                        },
                    }
                },
                Generic::Type(ty) => {
                    self.fmt(repr, *ty);
                },
                Generic::Const(value) => {
                    self.fmt_const(repr, value);
                },
            }
            proof {
                assert(repr@ =~= was + render_generic(src, nodes, at as int, args@[k as int]));
            }
            if k + 1 != args.len() {
                repr.append(", ");
            }
            k = k + 1;
            proof {
                assert(repr@ + render_generics(src, nodes, at as int, args@, k as int) =~= was
                    + render_generics(src, nodes, at as int, args@, k - 1));
            }
        }
        proof {
            assert(repr@ =~= old(repr)@ + render_generics(src, nodes, at as int, args@, 0));
        }
    }

    /// Appends the texts of the traits `traits` of the trait object in slot
    /// `at`.
    fn fmt_bounds(&self, repr: &mut String, at: usize, traits: &Vec<DynBound>)
        requires
            at < self@.nodes.len(),
            forall|k: int|
                0 <= k < traits@.len() ==> bound_ok(
                    #[trigger] bound_models(traits@)[k],
                    at as int,
                    self@.nodes.len() as int,
                    self@.source.len() as int,
                ),
        ensures
            final(repr)@ == old(repr)@ + render_bounds(
                self@.source,
                self@.nodes,
                at as int,
                bound_models(traits@),
                0,
            ),
        decreases height(self@.nodes, at as int), 2nat, 1nat,
    {
        let ghost src = self@.source;
        let ghost nodes = self@.nodes;
        let ghost models = bound_models(traits@);
        let mut k: usize = 0;
        while k < traits.len()
            invariant
                0 <= k <= traits@.len(),
                at < self@.nodes.len(),
                src == self@.source,
                nodes == self@.nodes,
                models == bound_models(traits@),
                forall|k: int|
                    0 <= k < traits@.len() ==> bound_ok(
                        #[trigger] bound_models(traits@)[k],
                        at as int,
                        self@.nodes.len() as int,
                        self@.source.len() as int,
                    ),
                repr@ + render_bounds(src, nodes, at as int, models, k as int) == old(repr)@
                    + render_bounds(src, nodes, at as int, models, 0),
            decreases traits@.len() - k,
        {
            let ghost was = repr@;
            let bound = &traits[k];
            assert(models[k as int] == bound@);
            assert(bound_ok(models[k as int], at as int, nodes.len() as int, src.len() as int));
            assert forall|j: int| 0 <= j < bound.bindings@.len() implies binding_ok(
                #[trigger] bound.bindings@[j],
                at as int,
                nodes.len() as int,
                src.len() as int,
            ) by {
                assert(binding_ok(
                    models[k as int].bindings[j],
                    at as int,
                    nodes.len() as int,
                    src.len() as int,
                ));
            }
            self.fmt(repr, bound.path);
            if bound.bindings.len() > 0 {
                repr.push('<');
                self.fmt_bindings(repr, at, &bound.bindings);
                repr.push('>');
            }
            proof {
                assert(repr@ =~= was + render_bound(src, nodes, at as int, models[k as int]));
            }
            k = k + 1;
            proof {
                assert(repr@ + render_bounds(src, nodes, at as int, models, k as int) =~= was
                    + render_bounds(src, nodes, at as int, models, k - 1));
            }
        }
        proof {
            assert(repr@ =~= old(repr)@ + render_bounds(src, nodes, at as int, models, 0));
        }
    }

    /// Appends the texts of the bindings `bindings` of a trait of the trait
    /// object in slot `at`.
    fn fmt_bindings(&self, repr: &mut String, at: usize, bindings: &Vec<Binding>)
        requires
            at < self@.nodes.len(),
            forall|k: int|
                0 <= k < bindings@.len() ==> binding_ok(
                    #[trigger] bindings@[k],
                    at as int,
                    self@.nodes.len() as int,
                    self@.source.len() as int,
                ),
        ensures
            final(repr)@ == old(repr)@ + render_bindings(
                self@.source,
                self@.nodes,
                at as int,
                bindings@,
                0,
            ),
        decreases height(self@.nodes, at as int), 1nat, 0nat,
    {
        let ghost src = self@.source;
        let ghost nodes = self@.nodes;
        let mut k: usize = 0;
        while k < bindings.len()
            invariant
                0 <= k <= bindings@.len(),
                at < self@.nodes.len(),
                src == self@.source,
                nodes == self@.nodes,
                forall|k: int|
                    0 <= k < bindings@.len() ==> binding_ok(
                        #[trigger] bindings@[k],
                        at as int,
                        self@.nodes.len() as int,
                        self@.source.len() as int,
                    ),
                repr@ + render_bindings(src, nodes, at as int, bindings@, k as int) == old(repr)@
                    + render_bindings(src, nodes, at as int, bindings@, 0),
            decreases bindings@.len() - k,
        {
            let ghost was = repr@;
            let binding = &bindings[k];
            assert(binding_ok(bindings@[k as int], at as int, nodes.len() as int, src.len() as int));
            push_span(repr, self.source.buf(), binding.name);
            repr.append(" = ");
            self.fmt(repr, binding.ty);
            let ghost item = span_text(src, binding.name) + " = "@ + render_child(
                src,
                nodes,
                at as int,
                binding.ty,
            );
            assert(repr@ =~= was + item);
            if k + 1 != bindings.len() {
                repr.append(", ");
            }
            let ghost sep = separator(k as int, bindings@.len() as int);
            assert(repr@ == was + item + sep);
            let ghost rest = render_bindings(src, nodes, at as int, bindings@, k + 1);
            assert(render_bindings(src, nodes, at as int, bindings@, k as int) == item + sep + rest);
            k = k + 1;
            proof {
                assert(repr@ + rest =~= was + (item + sep + rest));
            }
        }
        proof {
            assert(repr@ =~= old(repr)@ + render_bindings(src, nodes, at as int, bindings@, 0));
        }
    }

    /// Appends the text of a constant.
    fn fmt_const(&self, repr: &mut String, constant: &Const)
        requires
            constant.ty < self@.nodes.len(),
            is_const_type(self@.nodes[constant.ty as int]),
        ensures
            final(repr)@ == old(repr)@ + render_const(self@.source, self@.nodes, *constant),
    {
        let kind = match self.ast.get(constant.ty) {
            Type::Basic(tag) => const_kind_of(*tag),
            _ => None,
        };
        match kind {
            Some(ConstKind::Integer) => {
                match hex_value(self.source.buf(), constant.data) {
                    Some(value) => {
                        if constant.neg {
                            repr.push('-');
                        }
                        fmt_unsigned(repr, value);
                    },
                    None => {
                        repr.push('_');
                    },
                }
            },
            Some(ConstKind::Char) => {
                let letter = match hex_value(self.source.buf(), constant.data) {
                    Some(code) => code_to_char(code),
                    None => None,
                };
                match letter {
                    Some(letter) => {
                        repr.push(letter);
                    },
                    None => {
                        repr.push('_');
                    },
                }
            },
            _ => {
                repr.push('_');
            },
        }
        proof {
            assert(repr@ =~= old(repr)@ + render_const(self@.source, self@.nodes, *constant));
        }
    }
}

/// Appends what stands in front of the target of a reference.
fn fmt_ref(repr: &mut String, lifetime: Option<Lifetime>, mutable: bool)
    ensures
        final(repr)@ == old(repr)@ + render_ref(lifetime, mutable),
{
    let named = match lifetime {
        Some(lifetime) => lifetime.0 != 0,
        None => false,
    };
    match lifetime {
        Some(lifetime) if named => {
            repr.append("&'");
            match lifetime.fmt() {
                Some(letter) => {
                    repr.push(letter);
                },
                None => {
                    repr.push('_');
                },
            }
            if mutable {
                repr.append(" mut ");
            } else {
                repr.push(' ');
            }
        },
        _ => {
            if mutable {
                repr.append("&mut ");
            } else {
                repr.push('&');
            }
        },
    }
    proof {
        assert(repr@ =~= old(repr)@ + render_ref(lifetime, mutable));
    }
}

/// Appends what a closure shows in place of a name.
fn fmt_closure(repr: &mut String, buf: &[u8], id: Option<usize>, name: Span)
    requires
        span_ok(name, buf@.len() as int),
    ensures
        final(repr)@ == old(repr)@ + render_closure(buf@, id, name),
{
    repr.append("{closure");
    if name.start != name.end {
        repr.push(':');
        push_span(repr, buf, name);
    }
    match id {
        Some(id) => {
            if id != 0 {
                repr.push('#');
                fmt_unsigned(repr, id);
            }
        },
        None => {},
    }
    repr.push('}');
    proof {
        assert(repr@ =~= old(repr)@ + render_closure(buf@, id, name));
    }
}

} // verus!
