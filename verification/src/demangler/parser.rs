use super::ast::{
    bound_models, Binding, BoundModel, Const, DynBound, Generic, Lifetime, Namespace, Path,
    PathModel, Span, Stack, Type, TypeModel, MAX_COMPLEXITY, MAX_DEPTH,
};
use super::cursor::Cursor;
use super::error::Error;
use super::grammar;
use super::grammar::{at, budget, room, State};
use super::number::{find_byte, lemma_digits_end, read_digits, scan_digits};
use super::primitive::{basic_types, can_type_const};
use super::wellformed::{
    binding_ok, bound_ok, child_ok, const_ok, extends, generic_ok, keeps, lemma_extends_twice,
    lemma_fill_extends, lemma_generic_ok_grows, span_ok,
};
use vstd::prelude::*;

verus! {

/// The grammar engine: one parse in flight, with its cursor, its arena and
/// its depth counter. Each production reads from the cursor, adds its nodes
/// to the arena, and answers as [`grammar`] says for the state it began in.
pub struct Parser {
    source: Cursor,
    ast: Stack,
    depth: usize,
}

impl Parser {
    /// The bytes that are parsed.
    pub closed spec fn text(&self) -> Seq<u8> {
        self.source.bytes()
    }

    /// Where the parse stands.
    pub closed spec fn state(&self) -> State {
        State { pos: self.source.position(), nodes: self.ast@, depth: self.depth as int }
    }

    /// What holds of a parser between productions: the read position lies in
    /// the text, and the arena and the depth are within their ceilings.
    pub open spec fn inv(&self) -> bool {
        &&& 0 <= self.state().pos <= self.text().len()
        &&& self.state().nodes.len() <= MAX_COMPLEXITY
        &&& 0 <= self.state().depth <= MAX_DEPTH
    }

    /// The read position.
    pub open spec fn pos(&self) -> int {
        self.state().pos
    }

    /// What holds after a production that reads without building nodes: the
    /// text, the arena and the depth are those of `before`.
    pub open spec fn read_on(&self, before: Parser) -> bool {
        &&& self.inv()
        &&& self.text() == before.text()
        &&& self.state().nodes == before.state().nodes
        &&& self.state().depth == before.state().depth
    }

    /// What holds after a production that builds nodes: the text and the
    /// depth are those of `before`, and the arena extends that of `before`.
    pub open spec fn built_on(&self, before: Parser) -> bool {
        &&& self.inv()
        &&& self.text() == before.text()
        &&& self.state().depth == before.state().depth
        &&& extends(before.state().nodes, self.state().nodes, self.text().len() as int)
    }

    /// What holds after a production that failed: the text is that of
    /// `before`, every node that was in the arena is untouched, and the
    /// productions that were open are open still, with those that the
    /// failure has left open inside them. The read position is somewhere in
    /// the text, and slots that were taken on the way stay taken.
    pub open spec fn failed_on(&self, before: Parser) -> bool {
        &&& self.inv()
        &&& self.text() == before.text()
        &&& before.state().depth <= self.state().depth
        &&& keeps(before.state().nodes, self.state().nodes)
    }

    /// What a production that began in `before` and answered `r` owes: the
    /// grammar's `expected` outcome is `r`, with this parser's state where it
    /// succeeded; where it failed, [`Parser::failed_on`] holds.
    pub open spec fn did(
        &self,
        before: Parser,
        r: Result<(), Error>,
        expected: Result<State, Error>,
    ) -> bool {
        &&& self.inv()
        &&& self.text() == before.text()
        &&& match r {
            Ok(()) => expected == Ok::<State, Error>(self.state()) && self.built_on(before),
            Err(e) => expected == Err::<State, Error>(e) && self.failed_on(before),
        }
    }

    /// As [`Parser::did`], for a production that also gives a value.
    pub open spec fn gave<T>(
        &self,
        before: Parser,
        r: Result<T, Error>,
        expected: Result<(State, T), Error>,
    ) -> bool {
        &&& self.inv()
        &&& self.text() == before.text()
        &&& match r {
            Ok(v) => expected == Ok::<(State, T), Error>((self.state(), v)) && self.built_on(before),
            Err(e) => expected == Err::<(State, T), Error>(e) && self.failed_on(before),
        }
    }

    /// A parser at the start of `source`, with an empty arena.
    pub fn new(source: Vec<u8>) -> (parser: Parser)
        ensures
            parser.inv(),
            parser.text() == source@,
            parser.state() == grammar::start(),
    {
        Parser { source: Cursor::new(source), ast: Stack::new(), depth: 0 }
    }

    /// The read position.
    pub fn position(&self) -> (pos: usize)
        ensures
            pos == self.pos(),
    {
        self.source.pos()
    }

    /// How many path and type productions are open.
    pub fn depth(&self) -> (depth: usize)
        ensures
            depth == self.state().depth,
    {
        self.depth
    }

    /// How many slots of the arena are taken.
    pub fn node_count(&self) -> (count: usize)
        ensures
            count == self.state().nodes.len(),
    {
        self.ast.ptr()
    }

    /// Reserves the next slot of the arena.
    pub fn take_spot(&mut self) -> (spot: Result<usize, Error>)
        requires
            old(self).inv(),
        ensures
            final(self).inv(),
            final(self).text() == old(self).text(),
            match spot {
                Ok(spot) => grammar::reserve(old(self).state()) == Ok::<State, Error>(
                    final(self).state(),
                ) && spot == old(self).state().nodes.len(),
                Err(e) => grammar::reserve(old(self).state()) == Err::<State, Error>(e) && final(
                    self).state() == old(self).state(),
            },
    {
        self.ast.take_spot()
    }

    /// Reads a base-62 number.
    pub fn consume_base62(&mut self) -> (r: Result<usize, Error>)
        requires
            old(self).inv(),
        ensures
            final(self).read_on(*old(self)),
            match r {
                Ok(n) => grammar::base62(old(self).text(), old(self).pos()) == Ok::<
                    (usize, int),
                    Error,
                >((n, final(self).pos())) && old(self).pos() < final(self).pos(),
                Err(e) => grammar::base62(old(self).text(), old(self).pos()) == Err::<
                    (usize, int),
                    Error,
                >(e) && final(self).pos() == old(self).pos(),
            },
    {
        let start = self.source.pos();
        let end = scan_digits(self.source.buf(), start, 62);
        proof {
            self.source.lemma_fits();
        }
        if !self.source.is_at(end, '_' as u8) {
            return Err(Error::DecodingBase62Num);
        }
        if end == start {
            self.source.set_pos(start + 1);
            return Ok(0);
        }
        proof {
            lemma_digits_end(self.text(), start as int, 62);
        }
        match read_digits(self.source.buf(), start, end, 62) {
            None => Err(Error::DecodingBase62Num),
            Some(v) => {
                if v == usize::MAX {
                    return Err(Error::DecodingBase62Num);
                }
                self.source.set_pos(end + 1);
                Ok(v + 1)
            },
        }
    }

    /// Reads a lifetime: a base-62 number.
    pub fn consume_lifetime(&mut self) -> (r: Result<Lifetime, Error>)
        requires
            old(self).inv(),
        ensures
            final(self).read_on(*old(self)),
            match r {
                Ok(lifetime) => grammar::base62(old(self).text(), old(self).pos()) == Ok::<
                    (usize, int),
                    Error,
                >((lifetime.0, final(self).pos())) && old(self).pos() < final(self).pos(),
                Err(e) => grammar::base62(old(self).text(), old(self).pos()) == Err::<
                    (usize, int),
                    Error,
                >(e) && final(self).pos() == old(self).pos(),
            },
    {
        match self.consume_base62() {
            Ok(id) => Ok(Lifetime(id)),
            Err(e) => Err(e),
        }
    }

    /// Reads a disambiguator if one stands at the cursor.
    pub fn try_consume_disambiguator(&mut self) -> (r: Result<Option<usize>, Error>)
        requires
            old(self).inv(),
        ensures
            final(self).read_on(*old(self)),
            match r {
                Ok(id) => grammar::disambiguator(old(self).text(), old(self).pos()) == Ok::<
                    (Option<usize>, int),
                    Error,
                >((id, final(self).pos())),
                Err(e) => grammar::disambiguator(old(self).text(), old(self).pos()) == Err::<
                    (Option<usize>, int),
                    Error,
                >(e) && final(self).pos() == old(self).pos() + 1,
            },
    {
        if self.source.take('s' as u8) {
            match self.consume_base62() {
                Ok(id) => Ok(Some(id)),
                Err(e) => Err(e),
            }
        } else {
            Ok(None)
        }
    }

    /// Reads a lifetime if the tag `L` stands at the cursor.
    pub fn try_consume_lifetime(&mut self) -> (r: Result<Option<Lifetime>, Error>)
        requires
            old(self).inv(),
        ensures
            final(self).read_on(*old(self)),
            match r {
                Ok(lifetime) => grammar::opt_lifetime(old(self).text(), old(self).pos())
                    == Ok::<(Option<Lifetime>, int), Error>((lifetime, final(self).pos())),
                Err(e) => grammar::opt_lifetime(old(self).text(), old(self).pos()) == Err::<
                    (Option<Lifetime>, int),
                    Error,
                >(e) && final(self).pos() == old(self).pos() + 1,
            },
    {
        if self.source.take('L' as u8) {
            match self.consume_lifetime() {
                Ok(lifetime) => Ok(Some(lifetime)),
                Err(e) => Err(e),
            }
        } else {
            Ok(None)
        }
    }

    /// Reads an identifier and gives the span of its name.
    pub fn consume_ident(&mut self) -> (r: Result<Span, Error>)
        requires
            old(self).inv(),
        ensures
            final(self).read_on(*old(self)),
            match r {
                Ok(name) => grammar::ident(old(self).text(), old(self).pos()) == Ok::<
                    (Span, int),
                    Error,
                >((name, final(self).pos())) && span_ok(name, old(self).text().len() as int),
                Err(e) => grammar::ident(old(self).text(), old(self).pos()) == Err::<
                    (Span, int),
                    Error,
                >(e) && final(self).pos() == old(self).pos(),
            },
    {
        let start = self.source.pos();
        let end = scan_digits(self.source.buf(), start, 10);
        if end == start {
            return Ok(Span { start, end: start });
        }
        proof {
            lemma_digits_end(self.text(), start as int, 10);
        }
        match read_digits(self.source.buf(), start, end, 10) {
            None => Err(Error::PathLengthNotNumber),
            Some(len) => {
                if len > self.source.len() - end {
                    return Err(Error::Invalid);
                }
                self.source.set_pos(end + len);
                Ok(Span { start: end, end: end + len })
            },
        }
    }

    /// Parses one path. A backreference that is refused at the cursor for
    /// its target leaves the arena as it was, the path open, and the read
    /// position behind its number.
    pub fn consume_path(&mut self) -> (r: Result<(), Error>)
        requires
            old(self).inv(),
        ensures
            final(self).did(*old(self), r, grammar::path(old(self).text(), old(self).state())),
            old(self).state().depth < MAX_DEPTH ==> (grammar::refused_backref(
                old(self).text(),
                old(self).state(),
            ) matches Some(current) ==> final(self).state() == State {
                pos: current,
                nodes: old(self).state().nodes,
                depth: old(self).state().depth + 1,
            }),
        decreases room(old(self).state()), budget(old(self).state()), 0nat, 0nat,
    {
        if self.depth >= MAX_DEPTH {
            return Err(Error::TooComplex);
        }
        self.depth = self.depth + 1;
        let tag = match self.source.consume() {
            Some(tag) => tag,
            None => {
                return Err(Error::Invalid);
            },
        };
        let done = if tag == 'C' as u8 {
            self.path_crate()
        } else if tag == 'M' as u8 || tag == 'X' as u8 || tag == 'Y' as u8 {
            self.path_impl(tag != 'Y' as u8, tag != 'M' as u8)
        } else if tag == 'N' as u8 {
            self.path_nested()
        } else if tag == 'I' as u8 {
            self.path_generic()
        } else if tag == 'B' as u8 {
            self.path_backref()
        } else if tag == 'E' as u8 {
            Ok(())
        } else {
            Err(Error::Invalid)
        };
        match done {
            Ok(()) => {
                self.depth = self.depth - 1;
                Ok(())
            },
            Err(e) => Err(e),
        }
    }

    /// Parses one path whose node is about to be named as a child, and gives
    /// its slot.
    fn consume_path_node(&mut self) -> (r: Result<usize, Error>)
        requires
            old(self).inv(),
        ensures
            final(self).did(
                *old(self),
                unit(r),
                grammar::produced(
                    old(self).state(),
                    grammar::path(old(self).text(), old(self).state()),
                ),
            ),
            r matches Ok(spot) ==> spot == old(self).state().nodes.len() && spot < final(
                self).state().nodes.len(),
        decreases room(old(self).state()), budget(old(self).state()), 1nat, 0nat,
    {
        let spot = self.ast.ptr();
        self.consume_path()?;
        if self.ast.ptr() == spot {
            return Err(Error::Invalid);
        }
        Ok(spot)
    }

    /// Parses one type whose node is about to be named as a child, and gives
    /// its slot.
    fn consume_type_node(&mut self) -> (r: Result<usize, Error>)
        requires
            old(self).inv(),
        ensures
            final(self).did(
                *old(self),
                unit(r),
                grammar::produced(
                    old(self).state(),
                    grammar::type_(old(self).text(), old(self).state()),
                ),
            ),
            r matches Ok(spot) ==> spot == old(self).state().nodes.len() && spot < final(
                self).state().nodes.len(),
        decreases room(old(self).state()), budget(old(self).state()), 1nat, 0nat,
    {
        let spot = self.ast.ptr();
        self.consume_type()?;
        if self.ast.ptr() == spot {
            return Err(Error::Invalid);
        }
        Ok(spot)
    }

    /// After `C`: a crate root.
    fn path_crate(&mut self) -> (r: Result<(), Error>)
        requires
            old(self).inv(),
        ensures
            final(self).did(*old(self), r, grammar::path_crate(old(self).text(), old(self).state())),
    {
        let id = self.try_consume_disambiguator()?;
        let name = self.consume_ident()?;
        let ghost mid = self.state().nodes;
        let spot = self.take_spot()?;
        self.ast.set(spot, Type::Path(Path::Crate(id, name)));
        proof {
            lemma_fill_extends(
                mid,
                mid.push(TypeModel::Empty),
                Type::Path(Path::Crate(id, name))@,
                self.text().len() as int,
            );
        }
        Ok(())
    }

    /// After `M`, `X` or `Y`: an impl.
    fn path_impl(&mut self, has_impl_path: bool, has_trait: bool) -> (r: Result<(), Error>)
        requires
            old(self).inv(),
        ensures
            final(self).did(
                *old(self),
                r,
                grammar::path_impl(old(self).text(), old(self).state(), has_impl_path, has_trait),
            ),
        decreases room(old(self).state()), budget(old(self).state()), 4nat, 0nat,
    {
        let ghost n = self.text().len() as int;
        let ghost before = self.state().nodes;
        let spot = self.take_spot()?;
        let ghost reserved = self.state().nodes;
        if has_impl_path {
            let _id = self.try_consume_disambiguator()?;
            self.consume_path()?;
        }
        let ghost st2 = self.state().nodes;
        let self_type = self.consume_type_node()?;
        proof {
            lemma_extends_twice(reserved, st2, self.state().nodes, n);
        }
        if has_trait {
            let ghost st3 = self.state().nodes;
            let trait_path = self.consume_path_node()?;
            let ghost mid = self.state().nodes;
            proof {
                lemma_extends_twice(reserved, st3, mid, n);
            }
            self.ast.set(spot, Type::Path(Path::Trait(self_type, trait_path)));
            proof {
                lemma_fill_extends(before, mid, Type::Path(Path::Trait(self_type, trait_path))@, n);
            }
        } else {
            let ghost mid = self.state().nodes;
            self.ast.set(spot, Type::Path(Path::InherentImpl(self_type)));
            proof {
                lemma_fill_extends(before, mid, Type::Path(Path::InherentImpl(self_type))@, n);
            }
        }
        Ok(())
    }

    /// After `N`: a nested path.
    fn path_nested(&mut self) -> (r: Result<(), Error>)
        requires
            old(self).inv(),
        ensures
            final(self).did(*old(self), r, grammar::path_nested(old(self).text(), old(self).state())),
        decreases room(old(self).state()), budget(old(self).state()), 4nat, 0nat,
    {
        let ghost n = self.text().len() as int;
        let ghost before = self.state().nodes;
        let namespace = match self.source.consume() {
            Some(tag) => if tag == 'v' as u8 {
                Namespace::Value
            } else if tag == 't' as u8 {
                Namespace::Type
            } else if tag == 'C' as u8 {
                Namespace::Closure
            } else {
                Namespace::Unknown
            },
            None => Namespace::Unknown,
        };
        let spot = self.take_spot()?;
        let parent = self.consume_path_node()?;
        let id = self.try_consume_disambiguator()?;
        let name = self.consume_ident()?;
        let ghost mid = self.state().nodes;
        self.ast.set(spot, Type::Path(Path::Nested(namespace, parent, id, name)));
        proof {
            lemma_fill_extends(
                before,
                mid,
                Type::Path(Path::Nested(namespace, parent, id, name))@,
                n,
            );
        }
        Ok(())
    }

    /// One generic argument.
    fn consume_generic(&mut self) -> (r: Result<Generic, Error>)
        requires
            old(self).inv(),
        ensures
            final(self).gave(
                *old(self),
                r,
                grammar::generic_arg(old(self).text(), old(self).state()),
            ),
            r matches Ok(arg) ==> generic_ok(
                final(self).state().nodes,
                arg,
                old(self).state().nodes.len() - 1,
                old(self).text().len() as int,
            ) && (old(self).state().nodes.len() < final(self).state().nodes.len() || old(
                self).pos() < final(self).pos()),
        decreases room(old(self).state()), budget(old(self).state()), 3nat, 0nat,
    {
        if self.source.take('L' as u8) {
            let lifetime = self.consume_lifetime()?;
            Ok(Generic::Lifetime(lifetime))
        } else if self.source.take('K' as u8) {
            let value = self.consume_const()?;
            Ok(Generic::Const(value))
        } else {
            let spot = self.consume_type_node()?;
            Ok(Generic::Type(spot))
        }
    }

    /// Parses generic arguments up to the terminator `E`.
    fn consume_generics(&mut self) -> (r: Result<Vec<Generic>, Error>)
        requires
            old(self).inv(),
        ensures
            final(self).inv(),
            final(self).text() == old(self).text(),
            match r {
                Ok(args) => grammar::generics(old(self).text(), old(self).state(), Seq::empty())
                    == Ok::<(State, Seq<Generic>), Error>((final(self).state(), args@)) && final(
                    self).built_on(*old(self)) && forall|k: int|
                    0 <= k < args@.len() ==> generic_ok(
                        final(self).state().nodes,
                        #[trigger] args@[k],
                        old(self).state().nodes.len() - 1,
                        old(self).text().len() as int,
                    ),
                Err(e) => grammar::generics(old(self).text(), old(self).state(), Seq::empty())
                    == Err::<(State, Seq<Generic>), Error>(e) && final(self).failed_on(*old(self)),
            },
        decreases room(old(self).state()), budget(old(self).state()), 4nat, 0nat,
    {
        let ghost n = self.text().len() as int;
        let ghost st0 = self.state();
        let mut args: Vec<Generic> = Vec::new();
        let mut done = self.source.take('E' as u8);
        while !done
            invariant
                self.inv(),
                self.text() == old(self).text(),
                n == self.text().len(),
                st0 == old(self).state(),
                st0.depth == self.state().depth,
                extends(st0.nodes, self.state().nodes, n),
                forall|k: int|
                    0 <= k < args@.len() ==> generic_ok(
                        self.state().nodes,
                        #[trigger] args@[k],
                        st0.nodes.len() - 1,
                        n,
                    ),
                !done ==> !at(self.text(), self.pos(), 'E'),
                grammar::generics(self.text(), st0, Seq::empty()) == (if done {
                    Ok::<(State, Seq<Generic>), Error>((self.state(), args@))
                } else {
                    grammar::generics(self.text(), self.state(), args@)
                }),
            ensures
                done,
            decreases room(self.state()), self.text().len() - self.pos(),
        {
            let ghost at_item = self.state();
            let ghost so_far = args@;
            let arg = match self.consume_generic() {
                Ok(arg) => arg,
                Err(e) => {
                    return Err(e);
                },
            };
            args.push(arg);
            proof {
                lemma_extends_twice(st0.nodes, at_item.nodes, self.state().nodes, n);
                assert forall|k: int| 0 <= k < args@.len() implies generic_ok(
                    self.state().nodes,
                    #[trigger] args@[k],
                    st0.nodes.len() - 1,
                    n,
                ) by {
                    if k < so_far.len() {
                        lemma_generic_ok_grows(
                            at_item.nodes,
                            self.state().nodes,
                            so_far[k],
                            st0.nodes.len() - 1,
                            st0.nodes.len() - 1,
                            n,
                        );
                    } else {
                        lemma_generic_ok_grows(
                            self.state().nodes,
                            self.state().nodes,
                            arg,
                            at_item.nodes.len() - 1,
                            st0.nodes.len() - 1,
                            n,
                        );
                    }
                }
                assert(grammar::generics(self.text(), at_item, so_far) == grammar::generics(
                    self.text(),
                    self.state(),
                    args@,
                ));
            }
            let ghost after_item = self.state();
            done = self.source.take('E' as u8);
            proof {
                if done {
                    assert(grammar::generics(self.text(), after_item, args@) == Ok::<
                        (State, Seq<Generic>),
                        Error,
                    >((self.state(), args@)));
                }
            }
        }
        Ok(args)
    }

    /// After `I`: a generic instantiation.
    fn path_generic(&mut self) -> (r: Result<(), Error>)
        requires
            old(self).inv(),
        ensures
            final(self).did(*old(self), r, grammar::path_generic(old(self).text(), old(self).state())),
        decreases room(old(self).state()), budget(old(self).state()), 5nat, 0nat,
    {
        let ghost n = self.text().len() as int;
        let ghost before = self.state().nodes;
        let spot = self.take_spot()?;
        let ghost reserved = self.state().nodes;
        let base = self.consume_path_node()?;
        let ghost st2 = self.state().nodes;
        let args = self.consume_generics()?;
        let ghost mid = self.state().nodes;
        proof {
            lemma_extends_twice(reserved, st2, mid, n);
            lemma_fill_extends(before, mid, TypeModel::Path(PathModel::Generic(base, args@)), n);
        }
        self.ast.set(spot, Type::Path(Path::Generic(base, args)));
        if self.source.take('c' as u8) {
            let _ = self.consume_ident()?;
        }
        Ok(())
    }

    /// After `B` in a path: a backreference to an earlier path.
    fn path_backref(&mut self) -> (r: Result<(), Error>)
        requires
            old(self).inv(),
        ensures
            final(self).did(*old(self), r, grammar::path_backref(old(self).text(), old(self).state())),
            grammar::base62(old(self).text(), old(self).pos()) matches Ok((target, current)) ==> (
            target >= current - 1 ==> final(self).state() == grammar::moved(
                old(self).state(),
                current,
            )),
        decreases room(old(self).state()), budget(old(self).state()), 4nat, 0nat,
    {
        let target = self.consume_base62()?;
        let current = self.source.pos();
        if target >= current - 1 {
            return Err(Error::BackrefIsFrontref);
        }
        self.source.set_pos(target);
        self.consume_path()?;
        self.source.set_pos(current);
        Ok(())
    }

    /// Parses one type. A backreference that is refused at the cursor for
    /// its target leaves the arena as it was, the type open, and the read
    /// position behind its number.
    pub fn consume_type(&mut self) -> (r: Result<(), Error>)
        requires
            old(self).inv(),
        ensures
            final(self).did(*old(self), r, grammar::type_(old(self).text(), old(self).state())),
            old(self).state().depth < MAX_DEPTH ==> (grammar::refused_backref(
                old(self).text(),
                old(self).state(),
            ) matches Some(current) ==> final(self).state() == State {
                pos: current,
                nodes: old(self).state().nodes,
                depth: old(self).state().depth + 1,
            }),
        decreases room(old(self).state()), budget(old(self).state()), 0nat, 0nat,
    {
        if self.depth >= MAX_DEPTH {
            return Err(Error::TooComplex);
        }
        self.depth = self.depth + 1;
        let tag = match self.source.consume() {
            Some(tag) => tag,
            None => {
                return Err(Error::Invalid);
            },
        };
        let done = if tag == 'A' as u8 {
            self.type_array()
        } else if tag == 'S' as u8 || tag == 'P' as u8 || tag == 'O' as u8 || tag == 'R' as u8
            || tag == 'Q' as u8 {
            self.type_pointee(tag)
        } else if tag == 'T' as u8 {
            self.type_tuple()
        } else if tag == 'F' as u8 {
            self.type_fn()
        } else if tag == 'D' as u8 {
            self.type_dyn()
        } else if tag == 'B' as u8 {
            self.type_backref()
        } else if basic_types(tag).is_some() {
            let ghost before = self.state().nodes;
            let spot = self.take_spot()?;
            self.ast.set(spot, Type::Basic(tag));
            proof {
                lemma_fill_extends(
                    before,
                    before.push(TypeModel::Empty),
                    TypeModel::Basic(tag),
                    self.text().len() as int,
                );
            }
            Ok(())
        } else {
            proof {
                self.source.lemma_fits();
            }
            self.source.offset(-1);
            self.consume_path()
        };
        match done {
            Ok(()) => {
                self.depth = self.depth - 1;
                Ok(())
            },
            Err(e) => Err(e),
        }
    }

    /// After `S`, `P`, `O`, `R` or `Q`: a type with one type under it.
    fn type_pointee(&mut self, tag: u8) -> (r: Result<(), Error>)
        requires
            old(self).inv(),
        ensures
            final(self).did(
                *old(self),
                r,
                grammar::type_pointee(old(self).text(), old(self).state(), tag),
            ),
        decreases room(old(self).state()), budget(old(self).state()), 4nat, 0nat,
    {
        let ghost n = self.text().len() as int;
        let ghost before = self.state().nodes;
        let lifetime = if tag == 'R' as u8 || tag == 'Q' as u8 {
            self.try_consume_lifetime()?
        } else {
            None
        };
        let spot = self.take_spot()?;
        let child = self.consume_type_node()?;
        let node = if tag == 'S' as u8 {
            Type::Slice(child)
        } else if tag == 'P' as u8 {
            Type::Pointer(child)
        } else if tag == 'O' as u8 {
            Type::PointerMut(child)
        } else if tag == 'R' as u8 {
            Type::Ref(lifetime, child)
        } else {
            Type::RefMut(lifetime, child)
        };
        let ghost mid = self.state().nodes;
        proof {
            lemma_fill_extends(before, mid, node@, n);
        }
        self.ast.set(spot, node);
        Ok(())
    }

    /// After `A`: an array.
    fn type_array(&mut self) -> (r: Result<(), Error>)
        requires
            old(self).inv(),
        ensures
            final(self).did(*old(self), r, grammar::type_array(old(self).text(), old(self).state())),
        decreases room(old(self).state()), budget(old(self).state()), 4nat, 0nat,
    {
        let ghost n = self.text().len() as int;
        let ghost before = self.state().nodes;
        let spot = self.take_spot()?;
        let ghost reserved = self.state().nodes;
        let elem = self.consume_type_node()?;
        let ghost st2 = self.state().nodes;
        let size = self.consume_const()?;
        let ghost mid = self.state().nodes;
        proof {
            lemma_extends_twice(reserved, st2, mid, n);
            lemma_fill_extends(before, mid, TypeModel::Array(elem, size), n);
        }
        self.ast.set(spot, Type::Array(elem, size));
        Ok(())
    }

    /// After `T`: a tuple.
    fn type_tuple(&mut self) -> (r: Result<(), Error>)
        requires
            old(self).inv(),
        ensures
            final(self).did(*old(self), r, grammar::type_tuple(old(self).text(), old(self).state())),
        decreases room(old(self).state()), budget(old(self).state()), 4nat, 0nat,
    {
        let ghost n = self.text().len() as int;
        let ghost before = self.state().nodes;
        let spot = self.take_spot()?;
        let elems = self.consume_types()?;
        let ghost mid = self.state().nodes;
        proof {
            lemma_fill_extends(before, mid, TypeModel::Tuple(elems@), n);
        }
        self.ast.set(spot, Type::Tuple(elems));
        Ok(())
    }

    /// Parses types up to the terminator `E` and gives their slots.
    pub fn consume_types(&mut self) -> (r: Result<Vec<usize>, Error>)
        requires
            old(self).inv(),
        ensures
            final(self).inv(),
            final(self).text() == old(self).text(),
            match r {
                Ok(spots) => grammar::types(old(self).text(), old(self).state(), Seq::empty())
                    == Ok::<(State, Seq<usize>), Error>((final(self).state(), spots@)) && final(
                    self).built_on(*old(self)) && forall|k: int|
                    0 <= k < spots@.len() ==> child_ok(
                        #[trigger] spots@[k],
                        old(self).state().nodes.len() - 1,
                        final(self).state().nodes.len() as int,
                    ),
                Err(e) => grammar::types(old(self).text(), old(self).state(), Seq::empty())
                    == Err::<(State, Seq<usize>), Error>(e) && final(self).failed_on(*old(self)),
            },
        decreases room(old(self).state()), budget(old(self).state()), 2nat, 0nat,
    {
        let ghost n = self.text().len() as int;
        let ghost st0 = self.state();
        let mut spots: Vec<usize> = Vec::new();
        let mut done = self.source.take('E' as u8);
        while !done
            invariant
                self.inv(),
                self.text() == old(self).text(),
                n == self.text().len(),
                st0 == old(self).state(),
                st0.depth == self.state().depth,
                extends(st0.nodes, self.state().nodes, n),
                forall|k: int|
                    0 <= k < spots@.len() ==> child_ok(
                        #[trigger] spots@[k],
                        st0.nodes.len() - 1,
                        self.state().nodes.len() as int,
                    ),
                !done ==> !at(self.text(), self.pos(), 'E'),
                grammar::types(self.text(), st0, Seq::empty()) == (if done {
                    Ok::<(State, Seq<usize>), Error>((self.state(), spots@))
                } else {
                    grammar::types(self.text(), self.state(), spots@)
                }),
            ensures
                done,
            decreases room(self.state()),
        {
            let ghost at_item = self.state();
            let spot = match self.consume_type_node() {
                Ok(spot) => spot,
                Err(e) => {
                    return Err(e);
                },
            };
            let ghost so_far = spots@;
            spots.push(spot);
            proof {
                lemma_extends_twice(st0.nodes, at_item.nodes, self.state().nodes, n);
                assert(grammar::types(self.text(), at_item, so_far) == grammar::types(
                    self.text(),
                    self.state(),
                    spots@,
                ));
            }
            let ghost after_item = self.state();
            done = self.source.take('E' as u8);
            proof {
                if done {
                    assert(grammar::types(self.text(), after_item, spots@) == Ok::<
                        (State, Seq<usize>),
                        Error,
                    >((self.state(), spots@)));
                }
            }
        }
        Ok(spots)
    }

    /// After `F`: a function signature.
    fn type_fn(&mut self) -> (r: Result<(), Error>)
        requires
            old(self).inv(),
        ensures
            final(self).did(*old(self), r, grammar::type_fn(old(self).text(), old(self).state())),
        decreases room(old(self).state()), budget(old(self).state()), 4nat, 0nat,
    {
        let ghost n = self.text().len() as int;
        let ghost before = self.state().nodes;
        if self.source.take('G' as u8) {
            return Err(Error::Invalid);
        }
        let is_unsafe = self.source.take('U' as u8);
        let mut name: Option<Span> = None;
        if self.source.take('K' as u8) {
            if self.source.take('C' as u8) {
                name = Some(self.consume_ident()?);
            }
        }
        let spot = self.take_spot()?;
        let ghost reserved = self.state().nodes;
        let args = self.consume_types()?;
        let ghost st2 = self.state().nodes;
        let ret = if self.source.take('u' as u8) {
            None
        } else {
            Some(self.consume_type_node()?)
        };
        let ghost mid = self.state().nodes;
        proof {
            lemma_extends_twice(reserved, st2, mid, n);
            lemma_fill_extends(before, mid, TypeModel::FnSig(None, is_unsafe, name, args@, ret), n);
        }
        self.ast.set(spot, Type::FnSig(None, is_unsafe, name, args, ret));
        Ok(())
    }

    /// Parses the bindings of one trait of a trait object.
    fn consume_bindings(&mut self) -> (r: Result<Vec<Binding>, Error>)
        requires
            old(self).inv(),
        ensures
            final(self).inv(),
            final(self).text() == old(self).text(),
            match r {
                Ok(found) => grammar::bindings(old(self).text(), old(self).state(), Seq::empty())
                    == Ok::<(State, Seq<Binding>), Error>((final(self).state(), found@)) && final(
                    self).built_on(*old(self)) && forall|k: int|
                    0 <= k < found@.len() ==> binding_ok(
                        #[trigger] found@[k],
                        old(self).state().nodes.len() - 1,
                        final(self).state().nodes.len() as int,
                        old(self).text().len() as int,
                    ),
                Err(e) => grammar::bindings(old(self).text(), old(self).state(), Seq::empty())
                    == Err::<(State, Seq<Binding>), Error>(e) && final(self).failed_on(*old(self)),
            },
        decreases room(old(self).state()), budget(old(self).state()), 2nat, 0nat,
    {
        let ghost n = self.text().len() as int;
        let ghost st0 = self.state();
        let mut found: Vec<Binding> = Vec::new();
        let mut more = self.source.take('p' as u8);
        while more
            invariant
                self.inv(),
                self.text() == old(self).text(),
                n == self.text().len(),
                st0 == old(self).state(),
                st0.depth == self.state().depth,
                extends(st0.nodes, self.state().nodes, n),
                forall|k: int|
                    0 <= k < found@.len() ==> binding_ok(
                        #[trigger] found@[k],
                        st0.nodes.len() - 1,
                        self.state().nodes.len() as int,
                        n,
                    ),
                more ==> at(self.text(), self.pos() - 1, 'p') && grammar::bindings(
                    self.text(),
                    st0,
                    Seq::empty(),
                ) == grammar::bindings(
                    self.text(),
                    grammar::moved(self.state(), self.pos() - 1),
                    found@,
                ),
                !more ==> grammar::bindings(self.text(), st0, Seq::empty()) == Ok::<
                    (State, Seq<Binding>),
                    Error,
                >((self.state(), found@)),
            ensures
                !more,
            decreases room(self.state()),
        {
            let ghost at_item = self.state();
            let ghost so_far = found@;
            let name = match self.consume_ident() {
                Ok(name) => name,
                Err(e) => {
                    return Err(e);
                },
            };
            let ty = match self.consume_type_node() {
                Ok(ty) => ty,
                Err(e) => {
                    return Err(e);
                },
            };
            found.push(Binding { name, ty });
            proof {
                lemma_extends_twice(st0.nodes, at_item.nodes, self.state().nodes, n);
                assert forall|k: int| 0 <= k < found@.len() implies binding_ok(
                    #[trigger] found@[k],
                    st0.nodes.len() - 1,
                    self.state().nodes.len() as int,
                    n,
                ) by {
                    if k < so_far.len() {
                        assert(binding_ok(
                            so_far[k],
                            st0.nodes.len() - 1,
                            at_item.nodes.len() as int,
                            n,
                        ));
                    }
                }
                assert(grammar::bindings(
                    self.text(),
                    grammar::moved(at_item, at_item.pos - 1),
                    so_far,
                ) == grammar::bindings(self.text(), self.state(), found@));
            }
            let ghost after_item = self.state();
            more = self.source.take('p' as u8);
            proof {
                if more {
                    assert(grammar::moved(self.state(), self.pos() - 1) == after_item);
                } else {
                    assert(grammar::bindings(self.text(), after_item, found@) == Ok::<
                        (State, Seq<Binding>),
                        Error,
                    >((self.state(), found@)));
                }
            }
        }
        Ok(found)
    }

    /// Parses the traits of a trait object up to the terminator `E`.
    fn consume_bounds(&mut self) -> (r: Result<Vec<DynBound>, Error>)
        requires
            old(self).inv(),
        ensures
            final(self).inv(),
            final(self).text() == old(self).text(),
            match r {
                Ok(traits) => grammar::bounds(old(self).text(), old(self).state(), Seq::empty())
                    == Ok::<(State, Seq<BoundModel>), Error>(
                    (final(self).state(), bound_models(traits@)),
                ) && final(self).built_on(*old(self)) && forall|k: int|
                    0 <= k < traits@.len() ==> bound_ok(
                        #[trigger] bound_models(traits@)[k],
                        old(self).state().nodes.len() - 1,
                        final(self).state().nodes.len() as int,
                        old(self).text().len() as int,
                    ),
                Err(e) => grammar::bounds(old(self).text(), old(self).state(), Seq::empty())
                    == Err::<(State, Seq<BoundModel>), Error>(e) && final(self).failed_on(*old(self)),
            },
        decreases room(old(self).state()), budget(old(self).state()), 3nat, 0nat,
    {
        let ghost n = self.text().len() as int;
        let ghost st0 = self.state();
        let mut traits: Vec<DynBound> = Vec::new();
        let mut done = self.source.take('E' as u8);
        proof {
            assert(bound_models(traits@) =~= Seq::<BoundModel>::empty());
        }
        while !done
            invariant
                self.inv(),
                self.text() == old(self).text(),
                n == self.text().len(),
                st0 == old(self).state(),
                st0.depth == self.state().depth,
                extends(st0.nodes, self.state().nodes, n),
                forall|k: int|
                    0 <= k < traits@.len() ==> bound_ok(
                        #[trigger] bound_models(traits@)[k],
                        st0.nodes.len() - 1,
                        self.state().nodes.len() as int,
                        n,
                    ),
                !done ==> !at(self.text(), self.pos(), 'E'),
                grammar::bounds(self.text(), st0, Seq::empty()) == (if done {
                    Ok::<(State, Seq<BoundModel>), Error>((self.state(), bound_models(traits@)))
                } else {
                    grammar::bounds(self.text(), self.state(), bound_models(traits@))
                }),
            ensures
                done,
            decreases room(self.state()),
        {
            let ghost at_item = self.state();
            let ghost so_far = bound_models(traits@);
            let path = match self.consume_path_node() {
                Ok(path) => path,
                Err(e) => {
                    return Err(e);
                },
            };
            let ghost at_bindings = self.state();
            let bindings = match self.consume_bindings() {
                Ok(bindings) => bindings,
                Err(e) => {
                    return Err(e);
                },
            };
            let bound = DynBound { path, bindings };
            let ghost model = bound@;
            traits.push(bound);
            proof {
                let len = self.state().nodes.len() as int;
                lemma_extends_twice(at_item.nodes, at_bindings.nodes, self.state().nodes, n);
                lemma_extends_twice(st0.nodes, at_item.nodes, self.state().nodes, n);
                assert(bound_models(traits@) =~= so_far.push(model));
                assert forall|j: int| 0 <= j < model.bindings.len() implies binding_ok(
                    #[trigger] model.bindings[j],
                    st0.nodes.len() - 1,
                    len,
                    n,
                ) by {
                    assert(binding_ok(model.bindings[j], at_bindings.nodes.len() - 1, len, n));
                }
                assert(bound_ok(model, st0.nodes.len() - 1, len, n));
                assert forall|k: int| 0 <= k < traits@.len() implies bound_ok(
                    #[trigger] bound_models(traits@)[k],
                    st0.nodes.len() - 1,
                    len,
                    n,
                ) by {
                    if k < so_far.len() {
                        let was = so_far[k];
                        assert(bound_ok(was, st0.nodes.len() - 1, at_item.nodes.len() as int, n));
                        assert forall|j: int| 0 <= j < was.bindings.len() implies binding_ok(
                            #[trigger] was.bindings[j],
                            st0.nodes.len() - 1,
                            len,
                            n,
                        ) by {
                            assert(binding_ok(
                                was.bindings[j],
                                st0.nodes.len() - 1,
                                at_item.nodes.len() as int,
                                n,
                            ));
                        }
                    }
                }
                assert(grammar::bounds(self.text(), at_item, so_far) == grammar::bounds(
                    self.text(),
                    self.state(),
                    bound_models(traits@),
                ));
            }
            let ghost after_item = self.state();
            done = self.source.take('E' as u8);
            proof {
                if done {
                    assert(grammar::bounds(self.text(), after_item, bound_models(traits@)) == Ok::<
                        (State, Seq<BoundModel>),
                        Error,
                    >((self.state(), bound_models(traits@))));
                }
            }
        }
        Ok(traits)
    }

    /// After `D`: a trait object.
    fn type_dyn(&mut self) -> (r: Result<(), Error>)
        requires
            old(self).inv(),
        ensures
            final(self).did(*old(self), r, grammar::type_dyn(old(self).text(), old(self).state())),
        decreases room(old(self).state()), budget(old(self).state()), 4nat, 0nat,
    {
        let ghost n = self.text().len() as int;
        let ghost before = self.state().nodes;
        if self.source.take('G' as u8) {
            return Err(Error::Invalid);
        }
        let spot = self.take_spot()?;
        let traits = self.consume_bounds()?;
        if !self.source.take('L' as u8) {
            return Err(Error::DecodingBase62Num);
        }
        let lifetime = self.consume_lifetime()?;
        let ghost mid = self.state().nodes;
        proof {
            lemma_fill_extends(
                before,
                mid,
                TypeModel::DynTrait(None, bound_models(traits@), lifetime),
                n,
            );
        }
        self.ast.set(spot, Type::DynTrait(None, traits, lifetime));
        Ok(())
    }

    /// After `B` in a type: a backreference to an earlier type.
    fn type_backref(&mut self) -> (r: Result<(), Error>)
        requires
            old(self).inv(),
        ensures
            final(self).did(*old(self), r, grammar::type_backref(old(self).text(), old(self).state())),
            grammar::base62(old(self).text(), old(self).pos()) matches Ok((target, current)) ==> (
            target >= current - 1 ==> final(self).state() == grammar::moved(
                old(self).state(),
                current,
            )),
        decreases room(old(self).state()), budget(old(self).state()), 4nat, 0nat,
    {
        let target = self.consume_base62()?;
        let current = self.source.pos();
        if target >= current - 1 {
            return Err(Error::BackrefIsFrontref);
        }
        self.source.set_pos(target);
        self.consume_type()?;
        self.source.set_pos(current);
        Ok(())
    }

    /// Parses one constant.
    pub fn consume_const(&mut self) -> (r: Result<Const, Error>)
        requires
            old(self).inv(),
        ensures
            final(self).gave(*old(self), r, grammar::constant(old(self).text(), old(self).state())),
            r matches Ok(value) ==> const_ok(
                final(self).state().nodes,
                value,
                old(self).state().nodes.len() - 1,
                old(self).text().len() as int,
            ) && old(self).state().nodes.len() < final(self).state().nodes.len(),
        decreases room(old(self).state()), budget(old(self).state()), 2nat, 0nat,
    {
        let ghost before = self.state().nodes;
        if self.source.take('p' as u8) {
            let spot = self.take_spot()?;
            self.ast.set(spot, Type::Basic('p' as u8));
            proof {
                lemma_fill_extends(
                    before,
                    before.push(TypeModel::Empty),
                    TypeModel::Basic('p' as u8),
                    self.text().len() as int,
                );
            }
            return Ok(Const { neg: false, ty: spot, data: Span { start: 0, end: 0 } });
        }
        let ty = self.consume_type_node()?;
        if !can_type_const(self.ast.get(ty)) {
            return Err(Error::Invalid);
        }
        let neg = self.source.take('n' as u8);
        let start = self.source.pos();
        let len = self.source.len();
        let end = find_byte(self.source.buf(), start, '_' as u8);
        if end >= len {
            return Err(Error::ConstDelimiterNotFound);
        }
        self.source.set_pos(end + 1);
        Ok(Const { neg, ty, data: Span { start, end } })
    }

    /// Ends the parse and hands out the arena and the cursor.
    pub fn finish(self) -> (parts: (Stack, Cursor))
        ensures
            parts.0@ == self.state().nodes,
            parts.1.bytes() == self.text(),
    {
        (self.ast, self.source)
    }
}

/// A result without its value.
pub open spec fn unit<T>(r: Result<T, Error>) -> Result<(), Error> {
    match r {
        Ok(_) => Ok(()),
        Err(e) => Err(e),
    }
}

} // verus!
