use vstd::prelude::*;

verus! {

/// Why a symbol could not be demangled. The first failing production aborts
/// the whole parse with one of these kinds.
#[derive(Debug, PartialEq, Eq, Clone, Copy, Structural)]
pub enum Error {
    /// The symbol starts with none of the recognized prefixes.
    UnknownPrefix,
    /// The node arena or the depth budget is exhausted.
    TooComplex,
    /// The decimal length in front of an identifier does not fit a machine word.
    PathLengthNotNumber,
    /// A constant's value text is not closed by an underscore.
    ConstDelimiterNotFound,
    /// A backreference does not point strictly before itself.
    BackrefIsFrontref,
    /// A base-62 number is malformed, unterminated or too large.
    DecodingBase62Num,
    /// Nothing follows the prefix.
    SymbolTooSmall,
    /// A byte after the prefix lies outside ASCII.
    NotAscii,
    /// An unrecognized tag, a truncated symbol or an unsupported construct.
    Invalid,
}

} // verus!
