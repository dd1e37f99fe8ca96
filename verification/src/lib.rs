//! Reading the fonts a TeX engine uses: metrics (TFM, JFM, VF), encoding
//! vectors (`.enc`), font map files (`pdftex.map`, `kanjix.map`) and the
//! structure of Type 1 and OpenType fonts.

pub mod afm;
pub mod boundary;
pub mod enc;
pub mod fix;
pub mod fontmap;
pub mod glyph;
pub mod jfm;
pub mod keyed;
pub mod message;
pub mod opentype;
pub mod reader;
pub mod scan;
pub mod standard;
pub mod text;
pub mod vf;
pub mod tfm;
pub mod type1;
pub mod words;

pub use fix::Fix;
pub use reader::ParseError;
