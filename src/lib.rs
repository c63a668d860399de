//! Decoding of C-style backslash escapes, as done by an `echo -e` style
//! text emitter, with the fixed-width octal and hexadecimal sub-parsers.

pub mod args;
pub mod cursor;
pub mod decode;
pub mod numeric;
pub mod text;
