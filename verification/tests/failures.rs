use bite::demangler::{Error, Symbol};

fn demangle(mangled: &str) -> Result<String, Error> {
    Symbol::parse(mangled).map(|sym| sym.display())
}

#[test]
fn empty_remainder_is_too_small() {
    assert_eq!(demangle("_R"), Err(Error::SymbolTooSmall));
    assert_eq!(demangle("R"), Err(Error::SymbolTooSmall));
    assert_eq!(demangle("__R"), Err(Error::SymbolTooSmall));
}

#[test]
fn foreign_mangling_is_unknown_prefix() {
    assert_eq!(demangle("_ZN3foo3barE"), Err(Error::UnknownPrefix));
    assert_eq!(demangle("?foo@@YAXXZ"), Err(Error::UnknownPrefix));
    assert_eq!(demangle(""), Err(Error::UnknownPrefix));
    assert_eq!(demangle("_"), Err(Error::UnknownPrefix));
    assert_eq!(demangle("__"), Err(Error::UnknownPrefix));
    assert_eq!(demangle("___RC1a"), Err(Error::UnknownPrefix));
}

#[test]
fn all_prefixes_parse_alike() {
    assert_eq!(demangle("_RC8demangle").as_deref(), Ok("demangle"));
    assert_eq!(demangle("RC8demangle").as_deref(), Ok("demangle"));
    assert_eq!(demangle("__RC8demangle").as_deref(), Ok("demangle"));

    for rest in ["NvC3std3mem", "B1_", "C5ab", "INvC1a1bKj4E", "Z"] {
        let plain = demangle(&format!("_R{rest}"));
        assert_eq!(demangle(&format!("R{rest}")), plain);
        assert_eq!(demangle(&format!("__R{rest}")), plain);
    }
}

#[test]
fn non_ascii_is_rejected_before_the_grammar() {
    assert_eq!(demangle("_RC3f\u{e9}o"), Err(Error::NotAscii));
    // The byte stands behind a tag that the grammar would refuse.
    assert_eq!(demangle("_RZ\u{e9}"), Err(Error::NotAscii));
    // The byte stands behind the path, where the grammar never reads.
    assert_eq!(demangle("_RC1a\u{80}"), Err(Error::NotAscii));
    assert_eq!(demangle("R\u{7ff}"), Err(Error::NotAscii));
}

#[test]
fn unknown_tag_is_invalid() {
    assert_eq!(demangle("_RZ"), Err(Error::Invalid));
    assert_eq!(demangle("_R8demangle"), Err(Error::Invalid));
    assert_eq!(demangle("_RNvZ3foo"), Err(Error::Invalid));
}

#[test]
fn truncated_symbol_is_invalid() {
    assert_eq!(demangle("_RNv"), Err(Error::Invalid));
    assert_eq!(demangle("_RM"), Err(Error::Invalid));
    assert_eq!(demangle("_RIC1a"), Err(Error::Invalid));
    assert_eq!(demangle("_RINvC1a1bT"), Err(Error::Invalid));
}

#[test]
fn name_past_the_end_is_invalid() {
    assert_eq!(demangle("_RC5ab"), Err(Error::Invalid));
    assert_eq!(demangle("_RC12"), Err(Error::Invalid));
    assert_eq!(demangle("_RNvC1a9b"), Err(Error::Invalid));
}

#[test]
fn terminator_alone_has_no_node() {
    assert_eq!(demangle("_RE"), Err(Error::Invalid));
    assert_eq!(demangle("_RNvE1a"), Err(Error::Invalid));
    assert_eq!(demangle("_RMEE"), Err(Error::Invalid));
    assert_eq!(demangle("_RYjE"), Err(Error::Invalid));
}

#[test]
fn length_too_large_is_not_a_number() {
    assert_eq!(
        demangle("_RC99999999999999999999999999999999999999999x"),
        Err(Error::PathLengthNotNumber)
    );
    assert_eq!(demangle("_RC340282366920938463463374607431768211456"), Err(Error::PathLengthNotNumber));
}

#[test]
fn base62_must_be_closed_and_well_formed() {
    assert_eq!(demangle("_RCs"), Err(Error::DecodingBase62Num));
    assert_eq!(demangle("_RCs12"), Err(Error::DecodingBase62Num));
    assert_eq!(demangle("_RCs1-_3foo"), Err(Error::DecodingBase62Num));
    assert_eq!(demangle("_RB"), Err(Error::DecodingBase62Num));
}

#[test]
fn base62_overflow_is_an_error() {
    assert_eq!(demangle("_RCsZZZZZZZZZZZZZZZZZZZZZZ_3foo"), Err(Error::DecodingBase62Num));
    // Eleven digits always fit a 64-bit word.
    assert_eq!(demangle("_RCsZZZZZZZZZZ_3foo").as_deref(), Ok("foo"));
    if usize::BITS == 64 {
        // 62^11 - 1 fits; the number it stands for is one more and still fits.
        assert_eq!(demangle("_RCsZZZZZZZZZZZ_3foo"), Err(Error::DecodingBase62Num));
        // usize::MAX is written lYGhA16ahyf; it stands for one more.
        assert_eq!(demangle("_RCslYGhA16ahyf_3foo"), Err(Error::DecodingBase62Num));
        assert_eq!(demangle("_RCslYGhA16ahye_3foo").as_deref(), Ok("foo"));
    }
}

#[test]
fn backref_must_point_backwards() {
    // The number ends at 3, so targets from 2 on are refused.
    assert_eq!(demangle("_RB1_"), Err(Error::BackrefIsFrontref));
    assert_eq!(demangle("_RB2_"), Err(Error::BackrefIsFrontref));
    assert_eq!(demangle("_RBZ_"), Err(Error::BackrefIsFrontref));
    // The number ends at 11, so targets from 10 on are refused.
    assert_eq!(demangle("_RINvC1a1bB9_E"), Err(Error::BackrefIsFrontref));
    assert_eq!(demangle("_RINvC1a1bBa_E"), Err(Error::BackrefIsFrontref));
    // Position 9 lies before, but no type begins there.
    assert_eq!(demangle("_RINvC1a1bB8_E"), Err(Error::Invalid));
    assert_eq!(demangle("_RB0_"), Err(Error::Invalid));
}

#[test]
fn backref_to_an_earlier_path_succeeds() {
    // `B2_` names position 3, where the crate `a` begins.
    assert_eq!(demangle("_RINvC1a1bB2_E").as_deref(), Ok("a::b::<a>"));
    // `B0_` names position 1, where the path `a::b` begins.
    assert_eq!(demangle("_RINvC1a1bB0_E").as_deref(), Ok("a::b::<a::b>"));
    // `B1_` names position 2, which reads as the variadic marker.
    assert_eq!(demangle("_RINvC1a1bB1_E").as_deref(), Ok("a::b::<...>"));
    // A path may be named again as a path; a type may not.
    assert_eq!(demangle("_RXC1ajB0_").as_deref(), Ok("<usize as a>"));
    assert_eq!(demangle("_RXC1ajB3_"), Err(Error::Invalid));
    // `B_` names position 0: the whole generic path again, and again.
    assert_eq!(demangle("_RINvC1a1bB_E"), Err(Error::TooComplex));
    // `B7_` names the backreference itself.
    assert_eq!(demangle("_RINvC1a1bB7_E"), Err(Error::TooComplex));
}

#[test]
fn backref_to_itself_runs_out_of_depth() {
    assert_eq!(demangle("_RB_"), Err(Error::TooComplex));
    assert_eq!(demangle("_RMB_"), Err(Error::TooComplex));
}

#[test]
fn depth_is_bounded() {
    // The instantiation is open around 98 slices, one inside the other, and
    // the primitive is the hundredth production open.
    let deep = format!("_RIC1a{}jE", "S".repeat(98));
    let text = demangle(&deep).unwrap();
    assert_eq!(text, format!("a::<{}usize{}>", "[".repeat(98), "]".repeat(98)));

    let too_deep = format!("_RIC1a{}jE", "S".repeat(99));
    assert_eq!(demangle(&too_deep), Err(Error::TooComplex));
    let far_too_deep = format!("_RIC1a{}jE", "S".repeat(5000));
    assert_eq!(demangle(&far_too_deep), Err(Error::TooComplex));
}

#[test]
fn depth_counts_nesting_not_productions() {
    // 124 productions that nest four deep.
    let wide = format!("_RINvC1a1bT{}EE", "d".repeat(120));
    assert_eq!(demangle(&wide), Ok(format!("a::b::<({})>", vec!["f64"; 120].join(", "))));

    // 200 arguments side by side, and 250 nodes in all.
    let flat = format!("_RIC1a{}E", "j".repeat(248));
    assert_eq!(demangle(&flat), Ok(format!("a::<{}>", vec!["usize"; 248].join(", "))));

    // Many backreferences to one nested type, each parsed again.
    let again = format!("_RIC1aTTjEE{}E", "B3_".repeat(60));
    let text = demangle(&again).unwrap();
    assert_eq!(text, format!("a::<((usize)){}>", ", ((usize))".repeat(60)));
}

#[test]
fn wide_symbols_end_at_the_arena() {
    let full = format!("_RIC1a{}E", "j".repeat(254));
    assert!(demangle(&full).is_ok());
    let over = format!("_RIC1a{}E", "j".repeat(255));
    assert_eq!(demangle(&over), Err(Error::TooComplex));
    // Each backreference takes three slots more.
    let again = format!("_RIC1aTTjEE{}E", "B3_".repeat(83));
    assert!(demangle(&again).is_ok());
    let once_more = format!("_RIC1aTTjEE{}E", "B3_".repeat(84));
    assert_eq!(demangle(&once_more), Err(Error::TooComplex));
}

#[test]
fn arena_is_bounded() {
    // The instantiation and its base take two slots, each inferred constant
    // one more.
    let full = format!("_RIC1a{}E", "Kp".repeat(254));
    let text = demangle(&full).unwrap();
    assert_eq!(text, format!("a::<{}_>", "_, ".repeat(253)));

    let over = format!("_RIC1a{}E", "Kp".repeat(255));
    assert_eq!(demangle(&over), Err(Error::TooComplex));
    let far_over = format!("_RIC1a{}E", "Kp".repeat(100_000));
    assert_eq!(demangle(&far_over), Err(Error::TooComplex));
}

#[test]
fn constant_needs_its_underscore() {
    assert_eq!(demangle("_RINvC1a1bKj4E"), Err(Error::ConstDelimiterNotFound));
    assert_eq!(demangle("_RINvC1a1bKj"), Err(Error::ConstDelimiterNotFound));
    assert_eq!(demangle("_RINvC1a1bKhn"), Err(Error::ConstDelimiterNotFound));
}

#[test]
fn constant_of_unsupported_type_is_invalid() {
    assert_eq!(demangle("_RINvC1a1bKb1_E"), Err(Error::Invalid));
    assert_eq!(demangle("_RINvC1a1bKe0_E"), Err(Error::Invalid));
    assert_eq!(demangle("_RINvC1a1bKSj0_E"), Err(Error::Invalid));
    assert_eq!(demangle("_RINvC1a1bKC1c0_E"), Err(Error::Invalid));
}

#[test]
fn binders_are_refused() {
    assert_eq!(demangle("_RINvC1a1bFG_EuE"), Err(Error::Invalid));
    assert_eq!(demangle("_RINvC1a1bDG_EL_E"), Err(Error::Invalid));
}

#[test]
fn trait_object_needs_its_lifetime() {
    assert_eq!(demangle("_RINvC1a1bDC1tEE"), Err(Error::DecodingBase62Num));
    assert_eq!(demangle("_RINvC1a1bDC1tE"), Err(Error::DecodingBase62Num));
}
