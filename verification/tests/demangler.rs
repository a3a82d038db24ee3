use bite::demangler::{Error, Symbol};

fn demangle(mangled: &str) -> Result<String, Error> {
    Symbol::parse(mangled).map(|sym| sym.display())
}

fn check(mangled: &str, demangled: &str) {
    assert_eq!(demangle(mangled).as_deref(), Ok(demangled));
}

#[test]
fn crate_ident() {
    check("_RC8demangle", "demangle");
}

#[test]
fn generics() {
    check("_RINvNvC3std3mem8align_ofjdE", "std::mem::align_of::<usize, f64>");
    check(
        "_RINvNtC3std3mem8align_ofINtC3wow6HolderpEE",
        "std::mem::align_of::<wow::Holder<_>>",
    );
}

#[test]
fn namespaces() {
    check("_RNvC8rustdump6decode", "rustdump::decode");
    check("_RNvNvC8rustdump6decode6x86_64", "rustdump::decode::x86_64");
    check(
        "_RINvNvC8rustdump6decode6x86_64NvC3lol4damnE",
        "rustdump::decode::x86_64::<lol::damn>",
    );
}

#[test]
fn methods() {
    check(
        "_RNvNvXs2_C7mycrateINtC7mycrate3FoopEINtNtC3std7convert4FrompE4from3MSG",
        "<mycrate::Foo<_> as std::convert::From<_>>::from::MSG",
    );
}

#[test]
fn pointers() {
    check("_RINvC8rustdump6decodeRL_eE", "rustdump::decode::<&str>");
    check("_RINvC8rustdump6decodeRL0_eE", "rustdump::decode::<&'a str>");

    check("_RINvC8rustdump6decodeQL_eE", "rustdump::decode::<&mut str>");
    check("_RINvC8rustdump6decodeQL0_eE", "rustdump::decode::<&'a mut str>");

    check("_RINvC8rustdump6decodePeE", "rustdump::decode::<*const str>");
    check("_RINvC8rustdump6decodeOeE", "rustdump::decode::<*mut str>");
}

#[test]
fn arrays() {
    check(
        "_RINvC8rustdump6decodeANtNvC3std5array5Arrayjf_E",
        "rustdump::decode::<[std::array::Array; 15]>",
    );
}

#[test]
fn tupples() {
    check(
        "_RINvNtC3std3mem8align_ofjTddNvC4core3ptrEE",
        "std::mem::align_of::<usize, (f64, f64, core::ptr)>",
    );
}

#[test]
fn constants() {
    check(
        "_RNvXs5_NtCsd4VYFwevHkG_8rustdump6decodeINtB5_5ArrayNtNtB5_6x86_646PrefixKj4_EINtNtNtCs9ltgdHTiPiY_4core3ops5index8IndexMutjE9index_mutB7_",
        "<rustdump::decode::Array<rustdump::decode::x86_64::Prefix, 4> as core::ops::index::IndexMut<usize>>::index_mut",
    );

    check("__RNvMNtCs9ltgdHTiPiY_4core5sliceSRe4iterCslWKjbRFJPpS_3log", "<[&str]>::iter");

    check(
        "__RNvMs1_NtNtCs9ltgdHTiPiY_4core3ptr8non_nullINtB5_7NonNullReE6as_ptrCslWKjbRFJPpS_3log",
        "<core::ptr::non_null::NonNull<&str>>::as_ptr",
    );
}

#[test]
fn fn_signature() {
    check(
        "_RINvNtC3std3mem8align_ofFUKC3rundddEoE",
        "std::mem::align_of::<unsafe fn run(f64, f64, f64) -> u128>",
    );

    check(
        "_RINvNtC3std3mem8align_ofFKC3rundddEoE",
        "std::mem::align_of::<fn run(f64, f64, f64) -> u128>",
    );

    check("_RINvNtC3std3mem8align_ofFdddEoE", "std::mem::align_of::<fn(f64, f64, f64) -> u128>");
}

#[test]
fn dyn_traits() {
    check(
        "_RINvNtC4core4simd3mulDNvNtC4core3mem4Readp4ItemReEL_E",
        "core::simd::mul::<dyn core::mem::Read<Item = &str>>",
    );

    check(
        "_RINvNtC4core4simd3mulDNvNtC4core3mem4ReadEL0_E",
        "core::simd::mul::<dyn core::mem::Read + 'a>",
    );

    check("_RINvNtC4core4simd3mulDNvNtC4core3mem4ReadEL_E", "core::simd::mul::<dyn core::mem::Read>");
}

#[test]
fn type_compression() {
    check(
        "_RINvNtCs9ltgdHTiPiY_4core3ptr13drop_in_placeNtCs1GtwyVVVJ4z_6goblin6ObjectECsjO9TEQ1PNLx_8rustdump",
        "core::ptr::drop_in_place::<goblin::Object>",
    );
}

#[test]
fn closures() {
    check("_RNCNvC8rustdump6decodes_0", "rustdump::decode::{closure}");
    check("_RNCNvC8rustdump6decodes0_", "rustdump::decode::{closure#1}");
    check("_RNCNvC8rustdump6decodes0_3wow", "rustdump::decode::{closure:wow#1}");

    check(
        "_RINvMNtCs9ltgdHTiPiY_4core6optionINtB3_6OptionRhE3maphNCINvMs9_NtCsd4VYFwevHkG_8rustdump6decodeNtBZ_6Reader10consume_eqNCNvNtBZ_6x86_643asms_0Es0_0EB11_",
        "<core::option::Option<&u8>>::map::<u8, <rustdump::decode::Reader>::consume_eq::<rustdump::decode::x86_64::asm::{closure}>::{closure#1}>",
    );
}
