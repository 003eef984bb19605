//! The ASCII characters that the codecs and builders name.

use vstd::prelude::*;

verus! {

/// Horizontal tab.
pub const TAB: u8 = 0x09;

/// Line feed.
pub const NEWLINE: u8 = 0x0a;

/// Carriage return.
pub const CARRIAGE_RETURN: u8 = 0x0d;

/// `"`
pub const QUOTE: u8 = 0x22;

/// `*`
pub const STAR: u8 = 0x2a;

/// `-`
pub const MINUS: u8 = 0x2d;

/// `/`
pub const SLASH: u8 = 0x2f;

/// `0`
pub const DIGIT_0: u8 = 0x30;

/// `9`
pub const DIGIT_9: u8 = 0x39;

/// `A`
pub const UPPER_A: u8 = 0x41;

/// `F`
pub const UPPER_F: u8 = 0x46;

/// `X`
pub const UPPER_X: u8 = 0x58;

/// `\`
pub const BACKSLASH: u8 = 0x5c;

/// `Z`
pub const UPPER_Z: u8 = 0x5a;

/// `a`
pub const LOWER_A: u8 = 0x61;

/// `f`
pub const LOWER_F: u8 = 0x66;

/// `n`
pub const LOWER_N: u8 = 0x6e;

/// `r`
pub const LOWER_R: u8 = 0x72;

/// `t`
pub const LOWER_T: u8 = 0x74;

/// `x`
pub const LOWER_X: u8 = 0x78;

/// `{`
pub const BRACE_OPEN: u8 = 0x7b;

/// `}`
pub const BRACE_CLOSE: u8 = 0x7d;

} // verus!
