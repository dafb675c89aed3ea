//! Shrinks bloated spreadsheet worksheets: a streaming scan pass finds the
//! true used range of a worksheet's markup, and a rewrite pass re-emits the
//! markup clamped to that range, with merge regions filtered and bulk
//! metadata blocks elided.

pub mod codec;
pub mod emit;
pub mod laws;
pub mod rewriter;
pub mod scanner;
pub mod sheet;
pub mod token;
pub mod xml;

use vstd::prelude::*;

verus! {

// Byte values of the ASCII characters the markup and the codec read.
pub const LET_A: u8 = 65;
pub const LET_Z: u8 = 90;
pub const DIG_0: u8 = 48;
pub const DIG_9: u8 = 57;
pub const B_LT: u8 = 60;
pub const B_GT: u8 = 62;
pub const B_SLASH: u8 = 47;
pub const B_EQ: u8 = 61;
pub const B_DQUOTE: u8 = 34;
pub const B_SQUOTE: u8 = 39;
pub const B_QMARK: u8 = 63;
pub const B_BANG: u8 = 33;
pub const B_DASH: u8 = 45;
pub const B_LBRACK: u8 = 91;
pub const B_RBRACK: u8 = 93;
pub const B_COLON: u8 = 58;
pub const B_SPACE: u8 = 32;
pub const B_TAB: u8 = 9;
pub const B_CR: u8 = 13;
pub const B_LF: u8 = 10;

/// Why a worksheet could not be processed: its markup cannot be
/// tokenized (an unterminated tag, comment or quote, or a malformed
/// attribute).
#[derive(Clone, Copy, Debug, PartialEq, Eq, Structural)]
pub enum XmlError {
    Malformed,
}

/// The highest populated row and column of one worksheet.
/// A zero in either field means "no populated cells seen",
/// and disables clamping on that axis.
#[derive(Clone, Copy, Debug, PartialEq, Eq, Structural)]
pub struct UsedRange {
    pub last_row: u32,
    pub last_col: u32,
}

} // verus!
