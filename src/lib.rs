//! Decoding of text-operand bytes into Unicode, driven by a font's
//! character map (ToUnicode CMap) or by a static single-byte encoding.

pub mod lexer;
pub mod text;
pub mod utf16;
pub mod cmap;
pub mod encoding;
pub mod decode;
pub mod font;
pub mod extract;
