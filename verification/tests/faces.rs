//! OpenType faces through ttf-parser, and the lossy text of font files.

use sabiface::opentype::{face_error, FaceError, OpenTypeFont};
use sabiface::reader::bcpl;

#[test]
fn faces_that_cannot_be_read_say_why() {
    let e = OpenTypeFont::parse(&[], 0).err().unwrap();
    assert_eq!(e.message, "UnknownMagic");
    let e = OpenTypeFont::parse(b"abcdefghijkl", 0).err().unwrap();
    assert_eq!(e.message, "UnknownMagic");
    let e = OpenTypeFont::parse(&[0, 1, 0, 0], 0).err().unwrap();
    assert_eq!(e.message, "MalformedFont");
    assert_eq!(face_error(FaceError::NoMaxpTable).message, "NoMaxpTable");
    assert_eq!(face_error(FaceError::FaceIndexOutOfBounds).message, "FaceIndexOutOfBounds");
}

/// A TrueType file with only `head`, `hhea` and `maxp`.
fn minimal_ttf(units_per_em: u16, glyphs: u16) -> Vec<u8> {
    let mut head = vec![0u8; 54];
    head[0..4].copy_from_slice(&0x0001_0000u32.to_be_bytes());
    head[12..16].copy_from_slice(&0x5F0F_3CF5u32.to_be_bytes());
    head[18..20].copy_from_slice(&units_per_em.to_be_bytes());
    let mut hhea = vec![0u8; 36];
    hhea[0..4].copy_from_slice(&0x0001_0000u32.to_be_bytes());
    hhea[34..36].copy_from_slice(&1u16.to_be_bytes());
    let mut maxp = vec![0u8; 6];
    maxp[0..4].copy_from_slice(&0x0000_5000u32.to_be_bytes());
    maxp[4..6].copy_from_slice(&glyphs.to_be_bytes());
    let tables: [(&[u8; 4], &Vec<u8>); 3] = [(b"head", &head), (b"hhea", &hhea), (b"maxp", &maxp)];
    let mut out = Vec::new();
    out.extend_from_slice(&0x0001_0000u32.to_be_bytes());
    out.extend_from_slice(&3u16.to_be_bytes());
    out.extend_from_slice(&[0, 32, 0, 1, 0, 16]);
    let mut offset = 12 + 16 * tables.len();
    for (tag, data) in &tables {
        out.extend_from_slice(*tag);
        out.extend_from_slice(&0u32.to_be_bytes());
        out.extend_from_slice(&(offset as u32).to_be_bytes());
        out.extend_from_slice(&(data.len() as u32).to_be_bytes());
        offset += (data.len() + 3) / 4 * 4;
    }
    for (_, data) in &tables {
        out.extend_from_slice(data);
        while out.len() % 4 != 0 {
            out.push(0);
        }
    }
    out
}

#[test]
fn a_minimal_face_is_read() {
    let data = minimal_ttf(1000, 3);
    let f = OpenTypeFont::parse(&data, 0).ok().unwrap();
    assert_eq!(f.units_per_em(), 1000);
    assert_eq!(f.glyph_count(), 3);
    assert_eq!(f.glyph_index('A'), None);
    assert_eq!(f.glyph_index_by_name("A"), None);
    let e = OpenTypeFont::parse(&data, 1).err().unwrap();
    assert_eq!(e.message, "FaceIndexOutOfBounds");
    let e = OpenTypeFont::parse(&minimal_ttf(8, 3), 0).err().unwrap();
    assert_eq!(e.message, "NoHeadTable");
    let e = OpenTypeFont::parse(&minimal_ttf(1000, 0), 0).err().unwrap();
    assert_eq!(e.message, "NoMaxpTable");
}

#[test]
fn invalid_bytes_are_replaced() {
    assert_eq!(bcpl(&[3, b'a', 0xff, b'b']), "a\u{FFFD}b");
    assert_eq!(bcpl(&[4, b'z', b'e', 0xC3, 0xA9]), "zeé");
    assert_eq!(bcpl(&[2, 0xff, b'a', b'z']), "\u{FFFD}a");
}
