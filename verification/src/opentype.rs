//! CFF and TrueType (OpenType) faces, read by ttf-parser. Glyph IDs come
//! as they are from the caller (XDV `set_glyphs`, a resolved CMap).

use vstd::prelude::*;
use crate::glyph::GlyphError;

verus! {

#[verifier::external_type_specification]
#[verifier::external_body]
pub struct ExFace<'a>(ttf_parser::Face<'a>);

/// Why a face could not be read (the variants of ttf-parser's
/// `FaceParsingError`).
#[derive(Debug, Clone, Copy, PartialEq, Eq)]
pub enum FaceError {
    MalformedFont,
    UnknownMagic,
    FaceIndexOutOfBounds,
    NoHeadTable,
    NoHheaTable,
    NoMaxpTable,
}

/// What `ttf_parser::Face::parse` makes of the font data and face index:
/// whether it reads a face, and if not, why.
pub uninterp spec fn face_parse_result(data: Seq<u8>, index: u32) -> Result<(), FaceError>;

/// `ttf_parser::Face::parse(data, index)`, with its error told apart by
/// variant. Its outcome is named by `face_parse_result`; the face itself is
/// opaque here.
#[verifier::external_body]
fn face_parse<'a>(data: &'a [u8], index: u32) -> (r: Result<ttf_parser::Face<'a>, FaceError>)
    ensures
        match r {
            Ok(_) => face_parse_result(data@, index) is Ok,
            Err(e) => face_parse_result(data@, index) == Err::<(), FaceError>(e),
        },
{
    match ttf_parser::Face::parse(data, index) {
        Ok(face) => Ok(face),
        Err(ttf_parser::FaceParsingError::MalformedFont) => Err(FaceError::MalformedFont),
        Err(ttf_parser::FaceParsingError::UnknownMagic) => Err(FaceError::UnknownMagic),
        Err(ttf_parser::FaceParsingError::FaceIndexOutOfBounds) => Err(FaceError::FaceIndexOutOfBounds),
        Err(ttf_parser::FaceParsingError::NoHeadTable) => Err(FaceError::NoHeadTable),
        Err(ttf_parser::FaceParsingError::NoHheaTable) => Err(FaceError::NoHheaTable),
        Err(ttf_parser::FaceParsingError::NoMaxpTable) => Err(FaceError::NoMaxpTable),
    }
}

/// What `Face::units_per_em` gives on the face read from the data.
pub uninterp spec fn face_units_per_em_of(data: Seq<u8>, index: u32) -> u16;

/// What `Face::number_of_glyphs` gives on the face read from the data.
pub uninterp spec fn face_number_of_glyphs_of(data: Seq<u8>, index: u32) -> u16;

/// What `Face::glyph_index` gives for a character on the face read from the data.
pub uninterp spec fn face_glyph_index_of(data: Seq<u8>, index: u32, ch: char) -> Option<u16>;

/// What `Face::glyph_index_by_name` gives for a name on the face read from the data.
pub uninterp spec fn face_glyph_index_by_name_of(data: Seq<u8>, index: u32, name: Seq<char>) -> Option<u16>;

/// `Face::units_per_em` on `Face::parse(data, index)`: named by
/// `face_units_per_em_of` when the face is read. ttf-parser rejects a `head`
/// table whose value lies outside 16..=16384, and documents that range.
#[verifier::external_body]
fn units_per_em_of(data: &[u8], index: u32) -> (r: u16)
    ensures
        face_parse_result(data@, index) is Ok ==> r == face_units_per_em_of(data@, index) && 16 <= r <= 16384,
{
    match ttf_parser::Face::parse(data, index) {
        Ok(face) => face.units_per_em(),
        Err(_) => 0,
    }
}

/// `Face::number_of_glyphs` on `Face::parse(data, index)`: named by
/// `face_number_of_glyphs_of` when the face is read. ttf-parser keeps it as
/// a `NonZeroU16` and documents that it is never zero.
#[verifier::external_body]
fn number_of_glyphs_of(data: &[u8], index: u32) -> (r: u16)
    ensures
        face_parse_result(data@, index) is Ok ==> r == face_number_of_glyphs_of(data@, index) && r >= 1,
{
    match ttf_parser::Face::parse(data, index) {
        Ok(face) => face.number_of_glyphs(),
        Err(_) => 0,
    }
}

/// `Face::glyph_index` on `Face::parse(data, index)`: the glyph that the
/// Unicode cmap subtables give the character, named by `face_glyph_index_of`
/// when the face is read.
#[verifier::external_body]
fn glyph_index_of(data: &[u8], index: u32, ch: char) -> (r: Option<u16>)
    ensures
        face_parse_result(data@, index) is Ok ==> r == face_glyph_index_of(data@, index, ch),
{
    match ttf_parser::Face::parse(data, index) {
        Ok(face) => face.glyph_index(ch).map(|g| g.0),
        Err(_) => None,
    }
}

/// `Face::glyph_index_by_name` on `Face::parse(data, index)`: the glyph that
/// the `post` or `CFF` table names so, named by `face_glyph_index_by_name_of`
/// when the face is read.
#[verifier::external_body]
fn glyph_index_by_name_of(data: &[u8], index: u32, name: &str) -> (r: Option<u16>)
    ensures
        face_parse_result(data@, index) is Ok ==> r == face_glyph_index_by_name_of(data@, index, name@),
{
    match ttf_parser::Face::parse(data, index) {
        Ok(face) => face.glyph_index_by_name(name).map(|g| g.0),
        Err(_) => None,
    }
}

/// The text of a parse failure: the name of its variant.
pub open spec fn face_error_text(e: FaceError) -> Seq<char> {
    match e {
        FaceError::MalformedFont => "MalformedFont"@,
        FaceError::UnknownMagic => "UnknownMagic"@,
        FaceError::FaceIndexOutOfBounds => "FaceIndexOutOfBounds"@,
        FaceError::NoHeadTable => "NoHeadTable"@,
        FaceError::NoHheaTable => "NoHheaTable"@,
        FaceError::NoMaxpTable => "NoMaxpTable"@,
    }
}

/// The error the font reader gives for a parse failure.
pub fn face_error(e: FaceError) -> (g: GlyphError)
    ensures
        g.message@ == face_error_text(e),
{
    let text = match e {
        FaceError::MalformedFont => "MalformedFont",
        FaceError::UnknownMagic => "UnknownMagic",
        FaceError::FaceIndexOutOfBounds => "FaceIndexOutOfBounds",
        FaceError::NoHeadTable => "NoHeadTable",
        FaceError::NoHheaTable => "NoHheaTable",
        FaceError::NoMaxpTable => "NoMaxpTable",
    };
    GlyphError { message: text.to_owned() }
}

/// A face read by ttf-parser, with the data and face index it was read from.
pub struct OpenTypeFont<'a> {
    face: ttf_parser::Face<'a>,
    data: &'a [u8],
    index: u32,
}

impl<'a> OpenTypeFont<'a> {
    /// The face was read from `data` and `index`.
    #[verifier::type_invariant]
    spec fn read_from_data(self) -> bool {
        face_parse_result(self.data@, self.index) is Ok
    }

    /// The font data the face was read from.
    pub closed spec fn font_data(&self) -> Seq<u8> {
        self.data@
    }

    /// The index of the face in the font data.
    pub closed spec fn face_index(&self) -> u32 {
        self.index
    }

    /// Reads face `index` of the font data; the error names why ttf-parser
    /// refused it.
    pub fn parse(data: &'a [u8], index: u32) -> (r: Result<OpenTypeFont<'a>, GlyphError>)
        ensures
            match r {
                Ok(f) => face_parse_result(data@, index) is Ok && f.font_data() == data@ && f.face_index() == index,
                Err(g) => face_parse_result(data@, index) matches Err(e) && g.message@ == face_error_text(e),
            },
    {
        match face_parse(data, index) {
            Ok(face) => Ok(OpenTypeFont { face, data, index }),
            Err(e) => Err(face_error(e)),
        }
    }

    /// The face itself, for reading outlines.
    pub fn face(&self) -> &ttf_parser::Face<'a> {
        &self.face
    }

    /// Font units per em, in 16..=16384.
    pub fn units_per_em(&self) -> (r: u16)
        ensures
            r == face_units_per_em_of(self.font_data(), self.face_index()),
            16 <= r <= 16384,
    {
        proof {
            use_type_invariant(self);
        }
        units_per_em_of(self.data, self.index)
    }

    /// The number of glyphs of the face; never zero.
    pub fn glyph_count(&self) -> (r: u16)
        ensures
            r == face_number_of_glyphs_of(self.font_data(), self.face_index()),
            r >= 1,
    {
        proof {
            use_type_invariant(self);
        }
        number_of_glyphs_of(self.data, self.index)
    }

    /// The glyph ID of a character through the Unicode cmap.
    pub fn glyph_index(&self, ch: char) -> (r: Option<u16>)
        ensures
            r == face_glyph_index_of(self.font_data(), self.face_index(), ch),
    {
        proof {
            use_type_invariant(self);
        }
        glyph_index_of(self.data, self.index, ch)
    }

    /// The glyph ID of a glyph name (the `post` table or the CFF charset).
    pub fn glyph_index_by_name(&self, name: &str) -> (r: Option<u16>)
        ensures
            r == face_glyph_index_by_name_of(self.font_data(), self.face_index(), name@),
    {
        proof {
            use_type_invariant(self);
        }
        glyph_index_by_name_of(self.data, self.index, name)
    }
}

} // verus!
