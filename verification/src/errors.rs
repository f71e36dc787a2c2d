use vstd::prelude::*;

verus! {

/// The error kinds the library reports.
///
/// `IoError` marks a source that could not be opened or read; it is produced
/// by the unverified shell around the library, which owns all file access.
/// `FormatError` marks a structurally invalid pin-mapping or constraint
/// document. `InvalidCharacter` carries the offending byte and its 1-based
/// line and column in a bitstream file. `RangeError` marks a bit index
/// outside the 64-bit hardware word.
#[derive(Clone, Copy, Debug, PartialEq, Eq, Structural)]
pub enum FdeError {
    IoError,
    FormatError,
    InvalidCharacter { ch: u8, line: usize, column: usize },
    RangeError,
}

} // verus!
