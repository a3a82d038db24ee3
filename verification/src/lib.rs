//! The verified core of a binary-analysis tool: the demangler of symbol
//! names, the bounded message log, and the blocks of the listing.

pub mod demangler;
pub mod disassembler;
pub mod log;
