use bite::demangler::ast::Lifetime;
use bite::demangler::primitive::basic_types;
use bite::demangler::text::{code_to_char, fmt_num, fmt_unsigned, hex_value, push_span};
use bite::demangler::ast::Span;
use bite::demangler::{Error, Symbol};

fn demangle(mangled: &str) -> Result<String, Error> {
    Symbol::parse(mangled).map(|sym| sym.display())
}

fn check(mangled: &str, demangled: &str) {
    assert_eq!(demangle(mangled).as_deref(), Ok(demangled));
}

fn num(n: isize) -> String {
    let mut out = String::from("x");
    fmt_num(&mut out, n);
    out
}

fn unsigned(n: usize) -> String {
    let mut out = String::new();
    fmt_unsigned(&mut out, n);
    out
}

#[test]
fn decimal_digits() {
    assert_eq!(unsigned(0), "0");
    assert_eq!(unsigned(7), "7");
    assert_eq!(unsigned(9), "9");
    assert_eq!(unsigned(10), "10");
    assert_eq!(unsigned(15), "15");
    assert_eq!(unsigned(99), "99");
    assert_eq!(unsigned(100), "100");
    assert_eq!(unsigned(1_000_000), "1000000");
    assert_eq!(unsigned(9_007_199_254_740_993), "9007199254740993");
    assert_eq!(unsigned(usize::MAX), usize::MAX.to_string());
    let mut n: usize = 1;
    while n < usize::MAX / 10 {
        assert_eq!(unsigned(n), n.to_string());
        assert_eq!(unsigned(n - 1), (n - 1).to_string());
        assert_eq!(unsigned(n + 1), (n + 1).to_string());
        n *= 10;
    }
}

#[test]
fn signed_decimal_digits() {
    assert_eq!(num(0), "x0");
    assert_eq!(num(15), "x15");
    assert_eq!(num(-1), "x-1");
    assert_eq!(num(-120), "x-120");
    assert_eq!(num(isize::MAX), format!("x{}", isize::MAX));
    assert_eq!(num(isize::MIN), format!("x{}", isize::MIN));
}

#[test]
fn lifetime_letters() {
    assert_eq!(Lifetime(0).fmt(), None);
    assert_eq!(Lifetime(1).fmt(), Some('a'));
    assert_eq!(Lifetime(2).fmt(), Some('b'));
    assert_eq!(Lifetime(26).fmt(), Some('z'));
    assert_eq!(Lifetime(27).fmt(), Some('A'));
    assert_eq!(Lifetime(52).fmt(), Some('Z'));
    assert_eq!(Lifetime(53).fmt(), None);
    assert_eq!(Lifetime(usize::MAX).fmt(), None);
}

#[test]
fn primitive_table() {
    let table = [
        (b'b', "bool"),
        (b'c', "char"),
        (b'e', "str"),
        (b'u', "()"),
        (b'a', "i8"),
        (b's', "i16"),
        (b'l', "i32"),
        (b'x', "i64"),
        (b'n', "i128"),
        (b'i', "isize"),
        (b'h', "u8"),
        (b't', "u16"),
        (b'm', "u32"),
        (b'y', "u64"),
        (b'o', "u128"),
        (b'j', "usize"),
        (b'f', "f32"),
        (b'd', "f64"),
        (b'z', "!"),
        (b'p', "_"),
        (b'v', "..."),
    ];
    for tag in 0..=255u8 {
        let expected = table.iter().find(|(t, _)| *t == tag).map(|(_, name)| *name);
        assert_eq!(basic_types(tag), expected);
    }
}

#[test]
fn span_text_is_appended() {
    let mut out = String::from("<");
    push_span(&mut out, b"3std5array", Span { start: 1, end: 4 });
    assert_eq!(out, "<std");
    push_span(&mut out, b"3std5array", Span { start: 4, end: 4 });
    assert_eq!(out, "<std");
    push_span(&mut out, b"3std5array", Span { start: 5, end: 10 });
    assert_eq!(out, "<stdarray");
}

#[test]
fn hexadecimal_values() {
    let whole = |text: &[u8]| hex_value(text, Span { start: 0, end: text.len() });
    assert_eq!(whole(b"0"), Some(0));
    assert_eq!(whole(b"f"), Some(15));
    assert_eq!(whole(b"F"), Some(15));
    assert_eq!(whole(b"ff"), Some(255));
    assert_eq!(whole(b"Ab"), Some(171));
    assert_eq!(whole(b"0010"), Some(16));
    assert_eq!(whole(b""), None);
    assert_eq!(whole(b"g"), None);
    assert_eq!(whole(b"+f"), None);
    assert_eq!(whole(b"1_"), None);
    assert_eq!(hex_value(b"1_", Span { start: 0, end: 1 }), Some(1));
    assert_eq!(hex_value(b"12", Span { start: 1, end: 3 }), None);
    assert_eq!(hex_value(b"12", Span { start: 2, end: 1 }), None);
    if usize::BITS == 64 {
        assert_eq!(whole(b"ffffffffffffffff"), Some(usize::MAX));
        assert_eq!(whole(b"10000000000000000"), None);
    }
}

#[test]
fn character_codes() {
    assert_eq!(code_to_char(0x41), Some('A'));
    assert_eq!(code_to_char(0xe9), Some('\u{e9}'));
    assert_eq!(code_to_char(0xd7ff), Some('\u{d7ff}'));
    assert_eq!(code_to_char(0xd800), None);
    assert_eq!(code_to_char(0xdfff), None);
    assert_eq!(code_to_char(0xe000), Some('\u{e000}'));
    assert_eq!(code_to_char(0x10ffff), Some('\u{10ffff}'));
    assert_eq!(code_to_char(0x110000), None);
    assert_eq!(code_to_char(usize::MAX), None);
}

#[test]
fn integer_constants() {
    check("_RINvC1a1bKj0_E", "a::b::<0>");
    check("_RINvC1a1bKj4_E", "a::b::<4>");
    check("_RINvC1a1bKhff_E", "a::b::<255>");
    check("_RINvC1a1bKjFF_E", "a::b::<255>");
    check("_RINvC1a1bKin5_E", "a::b::<-5>");
    check("_RINvC1a1bKan80_E", "a::b::<-128>");
    // Value text that is no hexadecimal number is shown as inferred.
    check("_RINvC1a1bKj_E", "a::b::<_>");
    check("_RINvC1a1bKjxyz_E", "a::b::<_>");
    check("_RINvC1a1bKo100000000000000000_E", "a::b::<_>");
}

#[test]
fn character_constants() {
    check("_RINvC1a1bKc41_E", "a::b::<A>");
    check("_RINvC1a1bKc7a_E", "a::b::<z>");
    check("_RINvC1a1bKce9_E", "a::b::<\u{e9}>");
    check("_RINvC1a1bKc1f600_E", "a::b::<\u{1f600}>");
    check("_RINvC1a1bKcd800_E", "a::b::<_>");
    check("_RINvC1a1bKc_E", "a::b::<_>");
}

#[test]
fn inferred_constants() {
    check("_RINvC1a1bKpE", "a::b::<_>");
    check("_RINvC1a1bKpKpE", "a::b::<_, _>");
    check("_RINvC1a1bAjpE", "a::b::<[usize; _]>");
}

#[test]
fn lifetime_arguments() {
    check("_RINvC1a1bL_E", "a::b::<'_>");
    check("_RINvC1a1bL0_E", "a::b::<'a>");
    check("_RINvC1a1bL1_jE", "a::b::<'b, usize>");
    check("_RINvC1a1bLp_E", "a::b::<'z>");
    check("_RINvC1a1bLq_E", "a::b::<'A>");
    check("_RINvC1a1bLP_E", "a::b::<'Z>");
    check("_RINvC1a1bLQ_E", "a::b::<'_>");
    check("_RINvC1a1bRLQ_eE", "a::b::<&'_ str>");
    check("_RINvC1a1bQLQ_eE", "a::b::<&'_ mut str>");
}

#[test]
fn every_primitive_renders() {
    check(
        "_RINvC1a1bbceuaslxnihtmyojfdzpvE",
        "a::b::<bool, char, str, (), i8, i16, i32, i64, i128, isize, u8, u16, u32, u64, u128, usize, f32, f64, !, _, ...>",
    );
}

#[test]
fn generics_on_a_type_have_no_colons() {
    check("_RINtC1a1bjE", "a::b<usize>");
    check("_RINvC1a1bjE", "a::b::<usize>");
    check("_RINCC1a1bjE", "a::{closure:b}::<usize>");
    check("_RIC1ajE", "a::<usize>");
    check("_RINvC1a1bE", "a::b::<>");
}

#[test]
fn impls() {
    check("_RMC1ajE", "<usize>");
    check("_RMs_C1ajE", "<usize>");
    check("_RXC1ajC1t", "<usize as t>");
    check("_RYjC1t", "<usize as t>");
    check("_RNvYjNtC1c1t1f", "<usize as c::t>::f");
}

#[test]
fn closures_with_and_without_numbers() {
    check("_RNCC1a0", "a::{closure}");
    check("_RNCC1as_0", "a::{closure}");
    check("_RNCC1as0_0", "a::{closure#1}");
    check("_RNCC1as8_0", "a::{closure#9}");
    check("_RNCC1as9_0", "a::{closure#10}");
    check("_RNCC1asa_0", "a::{closure#11}");
    check("_RNCC1as10_0", "a::{closure#63}");
    check("_RNCC1a1f", "a::{closure:f}");
}

#[test]
fn unknown_namespace_renders_as_a_name() {
    check("_RNxC1a1b", "a::b");
    check("_RNvC1a", "a::");
}

#[test]
fn empty_tuple_and_nested_tuples() {
    check("_RINvC1a1bTEE", "a::b::<()>");
    check("_RINvC1a1bTjEE", "a::b::<(usize)>");
    check("_RINvC1a1bTTjhETEEE", "a::b::<((usize, u8), ())>");
}

#[test]
fn function_signatures() {
    check("_RINvC1a1bFEuE", "a::b::<fn()>");
    check("_RINvC1a1bFUEuE", "a::b::<unsafe fn()>");
    check("_RINvC1a1bFjEjE", "a::b::<fn(usize) -> usize>");
    check("_RINvC1a1bFKC1cjEuE", "a::b::<fn c(usize)>");
    check("_RINvC1a1bFKjEuE", "a::b::<fn(usize)>");
    check("_RINvC1a1bFEFEuE", "a::b::<fn() -> fn()>");
}

#[test]
fn trait_objects() {
    check("_RINvC1a1bDEL_E", "a::b::<dyn >");
    check("_RINvC1a1bDC1tEL_E", "a::b::<dyn t>");
    check("_RINvC1a1bDC1tC1uEL1_E", "a::b::<dyn tu + 'b>");
    check("_RINvC1a1bDC1tp1xjp1yhEL_E", "a::b::<dyn t<x = usize, y = u8>>");
}

#[test]
fn type_backref_reparses_into_new_slots() {
    // `B7_` names position 8, where the tuple begins.
    check("_RINvC1a1bTjhEB7_E", "a::b::<(usize, u8), (usize, u8)>");
    check("_RINvC1a1bTjhEB8_E", "a::b::<(usize, u8), usize>");
}

#[test]
fn suffix_behind_an_instantiation_is_dropped() {
    check("_RINvC1a1bjEc3xyz", "a::b::<usize>");
    check("_RINvC1a1bjEc", "a::b::<usize>");
    assert_eq!(demangle("_RINvC1a1bjEc9xyz"), Err(Error::Invalid));
}

#[test]
fn what_follows_the_path_is_not_read() {
    check("_RC1aZZZZ", "a");
    check("_RNvC1a1b!!!", "a::b");
}
