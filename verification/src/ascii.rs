//! Names for the ASCII bytes that the language gives a meaning to.

use vstd::prelude::*;

verus! {

pub const TAB: u8 = 9;

pub const LINE_FEED: u8 = 10;

pub const FORM_FEED: u8 = 12;

pub const CARRIAGE_RETURN: u8 = 13;

pub const SPACE: u8 = 32;

pub const STAR: u8 = 42;

pub const PLUS: u8 = 43;

pub const MINUS: u8 = 45;

pub const DOT: u8 = 46;

pub const SLASH: u8 = 47;

pub const DIGIT_ZERO: u8 = 48;

pub const DIGIT_NINE: u8 = 57;

pub const UPPER_A: u8 = 65;

pub const UPPER_F: u8 = 70;

pub const LOWER_A: u8 = 97;

pub const LOWER_D: u8 = 100;

pub const LOWER_F: u8 = 102;

pub const LOWER_H: u8 = 104;

pub const LOWER_I: u8 = 105;

pub const LOWER_M: u8 = 109;

pub const LOWER_P: u8 = 112;

pub const LOWER_X: u8 = 120;

} // verus!
