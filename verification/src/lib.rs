//! A calculator for a small stack-based (reverse-Polish) language:
//! whitespace-separated tokens are integer literals, opcodes, or operator
//! symbols, consumed left to right against a stack of signed 64-bit
//! integers.  One evaluation pass turns a raw input string into a final
//! stack, an optional advisory error message, and a display-format
//! decision; a formatter renders the stack under that format.

pub mod ascii;
pub mod eval;
pub mod laws;
pub mod literal;
pub mod ops;
pub mod render;
pub mod token;
