use bite::demangler::ast::{Const, Lifetime, Span, MAX_COMPLEXITY, MAX_DEPTH};
use bite::demangler::parser::Parser;
use bite::demangler::Error;

fn parser(text: &str) -> Parser {
    Parser::new(text.as_bytes().to_vec())
}

#[test]
fn ceilings_are_the_documented_ones() {
    assert_eq!(MAX_COMPLEXITY, 256);
    assert_eq!(MAX_DEPTH, 100);
}

#[test]
fn new_parser_stands_at_the_start() {
    let p = parser("C1a");
    assert_eq!(p.position(), 0);
    assert_eq!(p.depth(), 0);
    assert_eq!(p.node_count(), 0);
}

#[test]
fn base62_numbers() {
    let value = |text: &str| {
        let mut p = parser(text);
        let n = p.consume_base62();
        (n, p.position())
    };
    assert_eq!(value("_"), (Ok(0), 1));
    assert_eq!(value("0_"), (Ok(1), 2));
    assert_eq!(value("9_"), (Ok(10), 2));
    assert_eq!(value("a_"), (Ok(11), 2));
    assert_eq!(value("z_"), (Ok(36), 2));
    assert_eq!(value("A_"), (Ok(37), 2));
    assert_eq!(value("Z_"), (Ok(62), 2));
    assert_eq!(value("10_"), (Ok(63), 3));
    assert_eq!(value("1Z_x"), (Ok(62 + 61 + 1), 3));
    assert_eq!(value("__"), (Ok(0), 1));
    assert_eq!(value("").0, Err(Error::DecodingBase62Num));
    assert_eq!(value("12").0, Err(Error::DecodingBase62Num));
    assert_eq!(value("1-_").0, Err(Error::DecodingBase62Num));
    assert_eq!(value("ZZZZZZZZZZZZZZZZZZZZZZZZ_").0, Err(Error::DecodingBase62Num));
}

#[test]
fn identifiers() {
    let ident = |text: &str| {
        let mut p = parser(text);
        let name = p.consume_ident();
        (name, p.position())
    };
    assert_eq!(ident("3foo"), (Ok(Span { start: 1, end: 4 }), 4));
    assert_eq!(ident("3fooo"), (Ok(Span { start: 1, end: 4 }), 4));
    assert_eq!(ident("10abcdefghijk"), (Ok(Span { start: 2, end: 12 }), 12));
    assert_eq!(ident("0"), (Ok(Span { start: 1, end: 1 }), 1));
    assert_eq!(ident("0x"), (Ok(Span { start: 1, end: 1 }), 1));
    assert_eq!(ident("003abc"), (Ok(Span { start: 3, end: 6 }), 6));
    // Without a digit the identifier is empty and nothing is read.
    assert_eq!(ident("foo"), (Ok(Span { start: 0, end: 0 }), 0));
    assert_eq!(ident(""), (Ok(Span { start: 0, end: 0 }), 0));
    assert_eq!(ident("4foo").0, Err(Error::Invalid));
    assert_eq!(ident("1").0, Err(Error::Invalid));
    assert_eq!(ident("99999999999999999999999999999").0, Err(Error::PathLengthNotNumber));
}

#[test]
fn disambiguators_and_lifetimes() {
    let mut p = parser("s1_x");
    assert_eq!(p.try_consume_disambiguator(), Ok(Some(2)));
    assert_eq!(p.position(), 3);
    assert_eq!(p.try_consume_disambiguator(), Ok(None));
    assert_eq!(p.position(), 3);

    let mut p = parser("s");
    assert_eq!(p.try_consume_disambiguator(), Err(Error::DecodingBase62Num));

    let mut p = parser("L_L0_x");
    assert_eq!(p.try_consume_lifetime(), Ok(Some(Lifetime(0))));
    assert_eq!(p.try_consume_lifetime(), Ok(Some(Lifetime(1))));
    assert_eq!(p.try_consume_lifetime(), Ok(None));
    assert_eq!(p.position(), 5);

    let mut p = parser("a_");
    assert_eq!(p.consume_lifetime(), Ok(Lifetime(11)));
}

#[test]
fn slots_are_handed_out_in_order() {
    let mut p = parser("");
    for expected in 0..MAX_COMPLEXITY {
        assert_eq!(p.take_spot(), Ok(expected));
        assert_eq!(p.node_count(), expected + 1);
    }
    assert_eq!(p.take_spot(), Err(Error::TooComplex));
    assert_eq!(p.take_spot(), Err(Error::TooComplex));
    assert_eq!(p.node_count(), MAX_COMPLEXITY);
}

#[test]
fn productions_close_again() {
    let mut p = parser("NvC1a1b");
    assert_eq!(p.consume_path(), Ok(()));
    assert_eq!(p.depth(), 0);
    assert_eq!(p.node_count(), 2);
    assert_eq!(p.position(), 7);

    // A primitive is one node; a named type is the node of its path.
    let mut p = parser("jC1a");
    assert_eq!(p.consume_type(), Ok(()));
    assert_eq!((p.depth(), p.node_count(), p.position()), (0, 1, 1));
    assert_eq!(p.consume_type(), Ok(()));
    assert_eq!((p.depth(), p.node_count(), p.position()), (0, 2, 4));

    // The terminator reads as a path without a node.
    let mut p = parser("E");
    assert_eq!(p.consume_path(), Ok(()));
    assert_eq!((p.depth(), p.node_count(), p.position()), (0, 0, 1));
}

#[test]
fn failed_production_keeps_what_was_there() {
    // The slice is refused for its unknown element, with two productions
    // open and the slot of the slice taken.
    let mut p = parser("jS!");
    assert_eq!(p.consume_type(), Ok(()));
    assert_eq!(p.consume_type(), Err(Error::Invalid));
    assert_eq!(p.node_count(), 2);
    assert!(p.depth() >= 1);
    assert!(p.position() <= 3);

    // A backreference refused at the cursor leaves the arena as it was.
    let mut p = parser("jB2_");
    assert_eq!(p.consume_type(), Ok(()));
    assert_eq!(p.consume_type(), Err(Error::BackrefIsFrontref));
    assert_eq!((p.depth(), p.node_count(), p.position()), (1, 1, 4));
    let mut p = parser("B9_");
    assert_eq!(p.consume_path(), Err(Error::BackrefIsFrontref));
    assert_eq!((p.depth(), p.node_count(), p.position()), (1, 0, 3));

    // The simple readers leave the position where the failure was found.
    let mut p = parser("12");
    assert_eq!(p.consume_base62(), Err(Error::DecodingBase62Num));
    assert_eq!(p.position(), 0);
    let mut p = parser("4foo");
    assert_eq!(p.consume_ident(), Err(Error::Invalid));
    assert_eq!(p.position(), 0);
    let mut p = parser("s12");
    assert_eq!(p.try_consume_disambiguator(), Err(Error::DecodingBase62Num));
    assert_eq!(p.position(), 1);
    let mut p = parser("L-");
    assert_eq!(p.try_consume_lifetime(), Err(Error::DecodingBase62Num));
    assert_eq!(p.position(), 1);
}

#[test]
fn lists_of_types() {
    let mut p = parser("jhTEEx");
    assert_eq!(p.consume_types(), Ok(vec![0, 1, 2]));
    assert_eq!((p.depth(), p.node_count(), p.position()), (0, 3, 5));
    let mut p = parser("E");
    assert_eq!(p.consume_types(), Ok(vec![]));
    let mut p = parser("jh");
    assert_eq!(p.consume_types(), Err(Error::Invalid));
}

#[test]
fn constants_by_production() {
    let mut p = parser("p");
    assert_eq!(
        p.consume_const(),
        Ok(Const { neg: false, ty: 0, data: Span { start: 0, end: 0 } })
    );
    assert_eq!((p.depth(), p.node_count(), p.position()), (0, 1, 1));

    let mut p = parser("jn1f_E");
    assert_eq!(
        p.consume_const(),
        Ok(Const { neg: true, ty: 0, data: Span { start: 2, end: 4 } })
    );
    assert_eq!((p.depth(), p.node_count(), p.position()), (0, 1, 5));

    let mut p = parser("h_");
    assert_eq!(
        p.consume_const(),
        Ok(Const { neg: false, ty: 0, data: Span { start: 1, end: 1 } })
    );

    let mut p = parser("b1_");
    assert_eq!(p.consume_const(), Err(Error::Invalid));
    let mut p = parser("j12");
    assert_eq!(p.consume_const(), Err(Error::ConstDelimiterNotFound));
}

#[test]
fn backref_restores_the_position() {
    // Read `j`, then a backreference to it.
    let mut p = parser("jB_x");
    assert_eq!(p.consume_type(), Ok(()));
    assert_eq!(p.consume_type(), Ok(()));
    assert_eq!((p.depth(), p.node_count(), p.position()), (0, 2, 3));
}
