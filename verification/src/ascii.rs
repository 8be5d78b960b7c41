//! Names for the ASCII bytes that the grammar of preprocessing tokens mentions.

use vstd::prelude::*;

verus! {

/// Horizontal tab.
pub const TAB: u8 = 0x09;

/// Line feed.
pub const NEWLINE: u8 = 0x0A;

/// Vertical tab.
pub const VERTICAL_TAB: u8 = 0x0B;

/// Form feed.
pub const FORM_FEED: u8 = 0x0C;

/// Carriage return.
pub const CARRIAGE_RETURN: u8 = 0x0D;

/// Space.
pub const SPACE: u8 = 0x20;

/// `!`
pub const BANG: u8 = 0x21;

/// `"`
pub const DOUBLE_QUOTE: u8 = 0x22;

/// `#`
pub const HASH: u8 = 0x23;

/// `%`
pub const PERCENT: u8 = 0x25;

/// `&`
pub const AMPERSAND: u8 = 0x26;

/// `'`
pub const SINGLE_QUOTE: u8 = 0x27;

/// `(`
pub const LEFT_PAREN: u8 = 0x28;

/// `)`
pub const RIGHT_PAREN: u8 = 0x29;

/// `*`
pub const ASTERISK: u8 = 0x2A;

/// `+`
pub const PLUS: u8 = 0x2B;

/// `,`
pub const COMMA: u8 = 0x2C;

/// `-`
pub const MINUS: u8 = 0x2D;

/// `.`
pub const DOT: u8 = 0x2E;

/// `/`
pub const SLASH: u8 = 0x2F;

/// `0`
pub const DIGIT_0: u8 = 0x30;

/// `8`
pub const DIGIT_8: u8 = 0x38;

/// `9`
pub const DIGIT_9: u8 = 0x39;

/// `:`
pub const COLON: u8 = 0x3A;

/// `;`
pub const SEMICOLON: u8 = 0x3B;

/// `<`
pub const LESS: u8 = 0x3C;

/// `=`
pub const EQUALS: u8 = 0x3D;

/// `>`
pub const GREATER: u8 = 0x3E;

/// `?`
pub const QUESTION: u8 = 0x3F;

/// `A`
pub const UPPER_A: u8 = 0x41;

/// `E`
pub const UPPER_E: u8 = 0x45;

/// `L`
pub const UPPER_L: u8 = 0x4C;

/// `P`
pub const UPPER_P: u8 = 0x50;

/// `U`
pub const UPPER_U: u8 = 0x55;

/// `Z`
pub const UPPER_Z: u8 = 0x5A;

/// `[`
pub const LEFT_BRACKET: u8 = 0x5B;

/// `\`
pub const BACKSLASH: u8 = 0x5C;

/// `]`
pub const RIGHT_BRACKET: u8 = 0x5D;

/// `^`
pub const CARET: u8 = 0x5E;

/// `_`
pub const UNDERSCORE: u8 = 0x5F;

/// `a`
pub const LOWER_A: u8 = 0x61;

/// `d`
pub const LOWER_D: u8 = 0x64;

/// `e`
pub const LOWER_E: u8 = 0x65;

/// `p`
pub const LOWER_P: u8 = 0x70;

/// `s`
pub const LOWER_S: u8 = 0x73;

/// `t`
pub const LOWER_T: u8 = 0x74;

/// `u`
pub const LOWER_U: u8 = 0x75;

/// `z`
pub const LOWER_Z: u8 = 0x7A;

/// `{`
pub const LEFT_BRACE: u8 = 0x7B;

/// `|`
pub const PIPE: u8 = 0x7C;

/// `}`
pub const RIGHT_BRACE: u8 = 0x7D;

/// `~`
pub const TILDE: u8 = 0x7E;

} // verus!
