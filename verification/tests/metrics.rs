//! TFM, JFM, VF, AFM and `.enc` files built byte by byte.

use sabiface::afm::Afm;
use sabiface::enc::Encoding;
use sabiface::jfm::{Direction, GlueKernOp, Jfm};
use sabiface::reader::{bcpl, Reader};
use sabiface::tfm::{LigKernOp, Tag, Tfm};
use sabiface::vf::Vf;
use sabiface::Fix;

fn be16(v: u16) -> [u8; 2] {
    v.to_be_bytes()
}

fn fix(v: i32) -> [u8; 4] {
    v.to_be_bytes()
}

/// A TFM file with the characters A (width 0.5, height 0.7, kern -0.1
/// before B) and B (width 0.25), design size 10pt and two parameters.
fn small_tfm() -> Vec<u8> {
    // lf lh bc ec nw nh nd ni nl nk ne np
    let sizes: [u16; 12] = [21, 2, 65, 66, 3, 2, 1, 1, 1, 1, 0, 2];
    let mut d = Vec::new();
    for s in sizes {
        d.extend_from_slice(&be16(s));
    }
    d.extend_from_slice(&0x1234_5678u32.to_be_bytes()); // checksum
    d.extend_from_slice(&fix(10 << 20)); // design size
    d.extend_from_slice(&[1, 0x10, 1, 0]); // A: width 1, height 1, tag 1 at 0
    d.extend_from_slice(&[2, 0x00, 0, 0]); // B: width 2
    for w in [0, 0x80000, 0x40000] {
        d.extend_from_slice(&fix(w));
    }
    for h in [0, 0xB3333] {
        d.extend_from_slice(&fix(h));
    }
    d.extend_from_slice(&fix(0)); // depth
    d.extend_from_slice(&fix(0)); // italic
    d.extend_from_slice(&[128, 66, 128, 0]); // A B: kern 0, stop
    d.extend_from_slice(&fix(-104858)); // kern
    d.extend_from_slice(&fix(0)); // slant
    d.extend_from_slice(&fix(0x55555)); // space
    assert_eq!(d.len(), 21 * 4);
    d
}

#[test]
fn tfm_reads_header_dimensions_and_kerns() {
    let t = Tfm::parse(&small_tfm()).unwrap();
    assert_eq!(t.checksum, 0x1234_5678);
    assert_eq!(t.design_size, Fix(10 << 20));
    assert_eq!(t.first_char, 65);
    assert_eq!(t.last_char, 66);
    let a = t.char_info(65).unwrap();
    assert_eq!(a.width, Fix(0x80000));
    assert_eq!(a.height, Fix(0xB3333));
    assert_eq!(a.tag, Tag::LigKern(0));
    assert_eq!(t.char_info(66).unwrap().width, Fix(0x40000));
    assert!(t.char_info(67).is_none());
    assert!(t.char_info(64).is_none());
    assert_eq!(t.lig_kern_for(65, 66), Some(LigKernOp::Kern(0)));
    assert_eq!(t.kern[0], Fix(-104858));
    assert_eq!(t.lig_kern_for(65, 65), None);
    assert_eq!(t.lig_kern_for(66, 65), None);
    assert_eq!(t.lig_kern_for(65, 300), None);
    assert_eq!(t.left_boundary_lig_kern(66), None);
    assert_eq!(t.fontdimen(0), None);
    assert_eq!(t.fontdimen(1), Some(Fix(0)));
    assert_eq!(t.fontdimen(2), Some(Fix(0x55555)));
    assert_eq!(t.fontdimen(3), None);
    let cs = t.chars();
    assert_eq!(cs.len(), 2);
    assert_eq!(cs[0].0, 65);
    assert_eq!(cs[1].0, 66);
    assert_eq!(t.right_boundary, None);
    assert_eq!(t.coding_scheme, "");
}

#[test]
fn tfm_errors_name_the_fault() {
    let short = Tfm::parse(&[0u8; 10]).unwrap_err();
    assert_eq!(short.offset, 10);
    assert_eq!(short.message, "unexpected end");

    let mut d = small_tfm();
    d.pop();
    let e = Tfm::parse(&d).unwrap_err();
    assert_eq!(e.message, "file is 83 bytes but lf says 84");

    let mut d = small_tfm();
    d[0..2].copy_from_slice(&be16(22));
    let e = Tfm::parse(&d).unwrap_err();
    assert_eq!(e.message, "file length does not match the subfile lengths");

    let mut d = small_tfm();
    d[4..6].copy_from_slice(&be16(70)); // bc > ec + 1
    let e = Tfm::parse(&d).unwrap_err();
    assert_eq!((e.offset, e.message.as_str()), (4, "bad bc/ec: 70/66"));

    let mut d = small_tfm();
    d[32 + 4] = 5; // B: width index 5 of 3
    let e = Tfm::parse(&d).unwrap_err();
    assert_eq!(e.message, "char 66 width index 5 out of range");

    let mut d = small_tfm();
    d[70] = 129; // the kern index of the lig/kern step becomes 256
    let e = Tfm::parse(&d).unwrap_err();
    assert_eq!(e.message, "lig_kern[0] refers to kern 256 out of 1");
}

#[test]
fn tfm_char_info_errors() {
    let cases: [(usize, u8, &str); 5] = [
        (33, 0x20, "char 65 height index 2 out of range"),
        (33, 0x11, "char 65 depth index 1 out of range"),
        (34, 5, "char 65 italic index 1 out of range"),
        (35, 5, "char 65 lig_kern start 5 out of range"),
        (38, 3, "char 66 exten index out of range"),
    ];
    for (at, byte, message) in cases {
        let mut d = small_tfm();
        d[at] = byte;
        assert_eq!(Tfm::parse(&d).unwrap_err().message, message, "byte {at}");
    }
}

#[test]
fn tfm_needs_a_two_word_header() {
    let mut d = small_tfm();
    d[0..2].copy_from_slice(&be16(20));
    d[2..4].copy_from_slice(&be16(1));
    d.drain(28..32);
    let e = Tfm::parse(&d).unwrap_err();
    assert_eq!((e.offset, e.message.as_str()), (2, "header or dimension tables too short"));
}

#[test]
fn fix_to_sp_rounds_like_tex() {
    // 1.0 and 0.5 at 10pt
    assert_eq!(Fix(1 << 20).to_sp(655360), 655360);
    assert_eq!(Fix(0x80000).to_sp(10 * 65536), 327680);
    assert_eq!(Fix(-1572864).to_sp(655360), -983040);
    // store_scaled rounds down: a tiny negative value gives -1, not 0
    assert_eq!(Fix(-1).to_sp(655360), -1);
    assert_eq!(Fix(1).to_sp(1), 0);
    assert_eq!(Fix(-1).to_sp(1), -1);
    assert_eq!(Fix(12345).to_sp(655360), 7715);
    assert_eq!(Fix(-12345).to_sp(655360), -7716);
}

#[test]
fn reader_reads_big_endian_and_stops_at_the_end() {
    let data = [1u8, 2, 3, 4, 5, 6, 7];
    let mut r = Reader::new(&data);
    assert_eq!(r.remaining(), 7);
    assert_eq!(r.u16().unwrap(), 0x0102);
    assert_eq!(r.u24().unwrap(), 0x030405);
    assert_eq!(r.remaining(), 2);
    let e = r.u32().unwrap_err();
    assert_eq!(e.message, "unexpected end");
    let mut r = Reader::new(&[0xff, 0xff, 0xff, 0xfe]);
    assert_eq!(r.i32().unwrap(), -2);
    let mut r = Reader::new(&[0, 0, 0x10, 0]);
    assert_eq!(r.fix().unwrap(), Fix(0x1000));
    let mut r = Reader::new(&[9, 8, 7]);
    assert_eq!(r.bytes(2).unwrap(), &[9, 8]);
    let e = r.bytes(2).unwrap_err();
    assert_eq!((e.offset, e.message.as_str()), (2, "unexpected end: need 2 bytes"));
    assert_eq!(r.u8().unwrap(), 7);
}

#[test]
fn bcpl_strings_are_cut_to_their_length() {
    assert_eq!(bcpl(&[3, b'a', b'b', b'c', b'd']), "abc");
    assert_eq!(bcpl(&[9, b'a', b'b']), "ab");
    assert_eq!(bcpl(&[]), "");
}

/// A JFM file (horizontal) with types 0 and 1, characters 0x3042 and
/// U+20BB7 (upTeX, third byte 2) of type 1, and a glue and a kern between types.
fn small_jfm() -> Vec<u8> {
    // id nt lf lh bc ec nw nh nd ni nl nk ng np
    let nt = 3u16;
    let sizes: [u16; 14] = [11, nt, 0, 2, 0, 1, 2, 1, 1, 1, 2, 1, 3, 1];
    let lf = 7 + 2 + nt + 2 + 2 + 1 + 1 + 1 + 2 + 1 + 3 + 1;
    let mut d = Vec::new();
    for (k, s) in sizes.iter().enumerate() {
        d.extend_from_slice(&be16(if k == 2 { lf } else { *s }));
    }
    d.extend_from_slice(&0u32.to_be_bytes());
    d.extend_from_slice(&fix(10 << 20));
    // char_type table: (0, 0), 0x3042 -> 1, U+20BB7 -> 1
    d.extend_from_slice(&[0, 0, 0, 0]);
    d.extend_from_slice(&[0x30, 0x42, 0, 1]);
    d.extend_from_slice(&[0x0B, 0xB7, 0x02, 1]);
    // types: 0 has a glue/kern program at 0, 1 has none
    d.extend_from_slice(&[1, 0, 1, 0]);
    d.extend_from_slice(&[1, 0, 0, 0]);
    d.extend_from_slice(&fix(0));
    d.extend_from_slice(&fix(1 << 20)); // width 1
    d.extend_from_slice(&fix(0)); // height
    d.extend_from_slice(&fix(0)); // depth
    d.extend_from_slice(&fix(0)); // italic
    d.extend_from_slice(&[0, 1, 0, 0]); // 0 -> 1: glue 0
    d.extend_from_slice(&[128, 0, 128, 0]); // 0 -> 0: kern 0, stop
    d.extend_from_slice(&fix(-(1 << 18))); // kern
    d.extend_from_slice(&fix(1 << 19)); // glue width
    d.extend_from_slice(&fix(1 << 18)); // stretch
    d.extend_from_slice(&fix(0)); // shrink
    d.extend_from_slice(&fix(0)); // param
    assert_eq!(d.len(), lf as usize * 4);
    d
}

#[test]
fn jfm_reads_types_and_glue() {
    let j = Jfm::parse(&small_jfm()).unwrap();
    assert_eq!(j.direction, Direction::Yoko);
    assert_eq!(j.char_type(0x3042), 1);
    assert_eq!(j.char_type(0x20BB7), 1);
    assert_eq!(j.char_type(0x0BB7), 0);
    assert_eq!(j.char_type(0x41), 0);
    assert_eq!(j.type_info(1).unwrap().width, Fix(1 << 20));
    assert!(j.type_info(2).is_none());
    match j.glue_kern_between(0, 1) {
        Some(GlueKernOp::Glue(g)) => {
            assert_eq!(g.width, Fix(1 << 19));
            assert_eq!(g.stretch, Fix(1 << 18));
        }
        other => panic!("expected glue, got {other:?}"),
    }
    assert_eq!(j.glue_kern_between(0, 0), Some(GlueKernOp::Kern(Fix(-(1 << 18)))));
    assert_eq!(j.glue_kern_between(1, 0), None);
}

#[test]
fn jfm_table_errors() {
    let mut d = small_jfm();
    d[52] = 5;
    assert_eq!(Jfm::parse(&d).unwrap_err().message, "type 1 width index 5 out of range");
    let mut d = small_jfm();
    d[82] = 129;
    assert_eq!(Jfm::parse(&d).unwrap_err().message, "glue_kern[1] kern index out of range");
    let mut d = small_jfm();
    d[78] = 1;
    assert_eq!(Jfm::parse(&d).unwrap_err().message, "glue_kern[0] glue index out of range");
}

#[test]
fn jfm_refuses_other_files() {
    let mut d = small_jfm();
    d[1] = 10;
    assert_eq!(Jfm::parse(&d).unwrap_err().message, "not a JFM (id = 10)");
    let mut d = small_jfm();
    d[1] = 9;
    assert_eq!(Jfm::parse(&d).unwrap().direction, Direction::Tate);
    let mut d = small_jfm();
    d[9] = 1;
    let e = Jfm::parse(&d).unwrap_err();
    assert_eq!((e.offset, e.message.as_str()), (8, "JFM must have bc = 0"));
}

fn small_vf() -> Vec<u8> {
    let mut d = vec![247, 202, 2, b'h', b'i'];
    d.extend_from_slice(&7u32.to_be_bytes());
    d.extend_from_slice(&fix(10 << 20));
    // fnt_def1 0: checksum, scale, design size, area "", name "cmr10"
    d.extend_from_slice(&[243, 0]);
    d.extend_from_slice(&1u32.to_be_bytes());
    d.extend_from_slice(&fix(1 << 20));
    d.extend_from_slice(&fix(10 << 20));
    d.extend_from_slice(&[0, 5]);
    d.extend_from_slice(b"cmr10");
    // short char 65: 2 DVI bytes, width 0x080000
    d.extend_from_slice(&[2, 65, 0x08, 0x00, 0x00, 171, 65]);
    // long char 0x10000
    d.push(242);
    d.extend_from_slice(&1u32.to_be_bytes());
    d.extend_from_slice(&0x10000u32.to_be_bytes());
    d.extend_from_slice(&fix(1 << 19));
    d.push(66);
    d.push(248);
    d
}

#[test]
fn vf_reads_fonts_and_packets() {
    let v = Vf::parse(&small_vf()).unwrap();
    assert_eq!(v.comment, "hi");
    assert_eq!(v.checksum, 7);
    assert_eq!(v.fonts.len(), 1);
    assert_eq!(v.fonts[0].name, "cmr10");
    assert_eq!(v.fonts[0].scale, Fix(1 << 20));
    assert_eq!(v.chars.len(), 2);
    let a = v.char(65).unwrap();
    assert_eq!(a.width, Fix(0x80000));
    assert_eq!(a.dvi, vec![171, 65]);
    assert_eq!(v.char(0x10000).unwrap().dvi, vec![66]);
    assert!(v.char(66).is_none());
}

#[test]
fn vf_errors() {
    assert_eq!(Vf::parse(&[247, 201]).unwrap_err().message, "not a VF file");
    let mut d = small_vf();
    d.pop();
    assert_eq!(Vf::parse(&d).unwrap_err().message, "unexpected end");
    let mut d = small_vf();
    let last = d.len() - 1;
    d[last] = 250;
    let e = Vf::parse(&d).unwrap_err();
    assert_eq!(e.offset, last);
    assert_eq!(e.message, "unexpected opcode 250 in VF");
    let mut d = small_vf();
    d.truncate(4);
    let e = Vf::parse(&d).unwrap_err();
    assert_eq!((e.offset, e.message.as_str()), (3, "unexpected end: need 2 bytes"));
}

#[test]
fn standard_encoding_names() {
    let std = Encoding::standard();
    assert_eq!(std.names.len(), 256);
    assert_eq!(std.glyph_name(0o47), Some("quoteright"));
    assert_eq!(std.glyph_name(0o256), Some("fi"));
    assert_eq!(std.glyph_name(0), None);
    assert_eq!(std.glyph_name(b'A'), Some("A"));
}

#[test]
fn enc_file_is_read_with_comments_and_notdef() {
    let mut text = String::from("% an encoding\n/MyEnc [ /A /.notdef % c\n/B");
    for _ in 0..253 {
        text.push_str(" /x");
    }
    text.push_str(" ] def\n");
    let e = Encoding::parse(&text).unwrap();
    assert_eq!(e.name, "MyEnc");
    assert_eq!(e.names.len(), 256);
    assert_eq!(e.glyph_name(0), Some("A"));
    assert_eq!(e.glyph_name(1), None);
    assert_eq!(e.glyph_name(2), Some("B"));
    assert_eq!(e.glyph_name(255), Some("x"));
}

#[test]
fn enc_errors() {
    assert_eq!(Encoding::parse("no vector here").unwrap_err().message, "no encoding name");
    assert_eq!(Encoding::parse("/E no bracket").unwrap_err().message, "no '['");
    let e = Encoding::parse("/E [ /a /b").unwrap_err();
    assert_eq!((e.offset, e.message.as_str()), (3, "no ']'"));
    assert_eq!(Encoding::parse("/E [ /a b ] def").unwrap_err().message, "bad token b");
    let e = Encoding::parse("/E [ /a /b ] def").unwrap_err();
    assert_eq!(e.message, "encoding has 2 entries, expected 256");
    // a '%' hides the rest of its line
    assert_eq!(Encoding::parse("% /E [ ]").unwrap_err().message, "no encoding name");
}

#[test]
fn afm_reads_names_codes_and_boxes() {
    let text = "StartFontMetrics 4.1\nFontName Probe-Regular \nFontBBox -10 -20 1000 900\nC 65 ; WX 500 ; N A ; B 10 0 490 700 ;\nC -1 ; WX 250.5 ; N space ; B 0 0 0 0 ;\nC 66 ; N A ; WX 600 ;\nEndFontMetrics\n";
    let afm = Afm::parse(text);
    assert_eq!(afm.font_name, "Probe-Regular");
    assert_eq!(afm.font_bbox_words, vec![vec!["-10", "-20", "1000", "900"]]);
    assert_eq!(afm.chars.len(), 3);
    let a = &afm.chars[0];
    assert_eq!(a.code, 65);
    assert_eq!(a.width_word.as_deref(), Some("500"));
    assert_eq!(a.name, "A");
    assert_eq!(a.bbox_words, vec![vec!["10", "0", "490", "700"]]);
    assert_eq!(afm.chars[1].code, -1);
    assert_eq!(afm.chars[1].width_word.as_deref(), Some("250.5"));
    // the later character with the same name wins
    assert_eq!(afm.by_name("A").unwrap().code, 66);
    assert_eq!(afm.by_name("space").unwrap().code, -1);
    assert!(afm.by_name("B").is_none());
}

#[test]
fn afm_codes_out_of_range_are_unencoded() {
    let afm = Afm::parse("C 99999999999 ; N x ;\nC abc ; N y ;\nC ; N z ;\n");
    assert_eq!(afm.chars.len(), 3);
    assert!(afm.chars.iter().all(|c| c.code == -1));
    assert_eq!(afm.chars[2].name, "z");
    assert!(afm.chars[0].width_word.is_none());
}

#[test]
fn encoding_with_255_names_reports_the_count() {
    let text = format!("/E [{}]", "/a ".repeat(255));
    let e = Encoding::parse(&text).unwrap_err();
    assert_eq!((e.offset, e.message.as_str()), (3, "encoding has 255 entries, expected 256"));
}

#[test]
fn jfm_without_header_words_is_an_error() {
    let mut data = vec![0u8, 11, 0, 0, 0, 12, 0, 0, 0, 0, 0, 0, 0, 1, 0, 1, 0, 1, 0, 1, 0, 0, 0, 0, 0, 0, 0, 0];
    data.extend_from_slice(&[0u8; 20]);
    let e = Jfm::parse(&data).unwrap_err();
    assert_eq!((e.offset, e.message.as_str()), (6, "header too short"));
}

#[test]
fn enc_and_afm_keep_text_beyond_ascii() {
    let text = format!("/Ëncoding [ {} ] def", "/ä ".repeat(256));
    let e = Encoding::parse(&text).unwrap();
    assert_eq!(e.name, "Ëncoding");
    assert_eq!(e.glyph_name(7), Some("ä"));
    assert_eq!(Encoding::parse("/E [ /a ü ] def").unwrap_err().message, "bad token ü");
    let afm = Afm::parse("FontName Fönt\nC 1 ; N ß ; B 1 2 3 4 ;\n");
    assert_eq!(afm.font_name, "Fönt");
    assert_eq!(afm.by_name("ß").unwrap().code, 1);
}
