//! Type 1 fonts (Adobe "Type 1 Font Format"): PFB segments and PFA text,
//! the eexec and charstring encryption, the font dictionary entries and the
//! charstring number and operator encoding.

pub mod charstring;
pub mod cipher;
pub mod clear;
pub mod font;
pub mod lexer;
pub mod private;
pub mod search;
pub mod segments;
