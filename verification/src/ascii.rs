//! ASCII byte values used by the formatting and parsing routines.

use vstd::prelude::*;

verus! {

pub const ASCII_NUL: u8 = 0;
pub const ASCII_TAB: u8 = 9;
pub const ASCII_LF: u8 = 10;
pub const ASCII_CR: u8 = 13;
pub const ASCII_SPACE: u8 = 32;
pub const ASCII_MINUS: u8 = 45;
pub const ASCII_DOT: u8 = 46;
pub const ASCII_ZERO: u8 = 48;
pub const ASCII_NINE: u8 = 57;
pub const ASCII_COLON: u8 = 58;
pub const ASCII_UPPER_B: u8 = 66;
pub const ASCII_UPPER_G: u8 = 71;
pub const ASCII_UPPER_K: u8 = 75;
pub const ASCII_UPPER_M: u8 = 77;
pub const ASCII_UPPER_S: u8 = 83;
pub const ASCII_UPPER_T: u8 = 84;
pub const ASCII_LOWER_A: u8 = 97;
pub const ASCII_LOWER_I: u8 = 105;
pub const ASCII_LOWER_P: u8 = 112;
pub const ASCII_LOWER_W: u8 = 119;

} // verus!
