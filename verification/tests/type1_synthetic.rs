//! Type 1 fonts that do not depend on any font installed: PFB and PFA files
//! put together on the spot.

use sabiface::type1::charstring::{next_token, CsFault, CsToken};
use sabiface::type1::cipher::decrypt;
use sabiface::type1::font::Type1Font;
use sabiface::type1::segments::split_segments;

fn eexec_encrypt(plain: &[u8]) -> Vec<u8> {
    let mut r = 55665u16;
    plain
        .iter()
        .map(|p| {
            let c = p ^ (r >> 8) as u8;
            r = (c as u16)
                .wrapping_add(r)
                .wrapping_mul(52845)
                .wrapping_add(22719);
            c
        })
        .collect()
}

fn charstring_encrypt(plain: &[u8], len_iv: usize) -> Vec<u8> {
    let mut r = 4330u16;
    let mut data = vec![0u8; len_iv];
    data.extend_from_slice(plain);
    data.iter()
        .map(|p| {
            let c = p ^ (r >> 8) as u8;
            r = (c as u16)
                .wrapping_add(r)
                .wrapping_mul(52845)
                .wrapping_add(22719);
            c
        })
        .collect()
}

const CLEAR: &[u8] = b"%!PS-AdobeFont-1.0: Probe 1.0\n/FontName /Probe def\n/FontMatrix [0.001 0 0 0.001 0 0] def\n/Encoding StandardEncoding def\ncurrentfile eexec\n";

fn pfb_with(clear: &[u8], private: &[u8]) -> Vec<u8> {
    let encrypted = eexec_encrypt(private);
    let mut out = Vec::new();
    for (kind, data) in [(1u8, clear), (2, encrypted.as_slice())] {
        out.extend_from_slice(&[128, kind]);
        out.extend_from_slice(&(data.len() as u32).to_le_bytes());
        out.extend_from_slice(data);
    }
    out.extend_from_slice(&[128, 3]);
    out
}

/// `private` is the plain text of the eexec part (it needs 4 random bytes in front).
fn pfb(private: &[u8]) -> Vec<u8> {
    pfb_with(CLEAR, private)
}

/// `0 500 hsbw endchar`
const A_PLAIN: [u8; 5] = [139, 248, 136, 13, 14];

/// The advance width that the `hsbw` of a charstring sets.
fn hsbw_advance(cs: &[u8]) -> f64 {
    let mut stack: Vec<i32> = Vec::new();
    let mut i = 0;
    while let Some((t, n)) = next_token(cs, i).unwrap() {
        match t {
            CsToken::Number(v) => stack.push(v),
            CsToken::Op(13) => return stack[1] as f64,
            _ => stack.clear(),
        }
        i = n;
    }
    panic!("no hsbw")
}

fn advance_of(font: &Type1Font, name: &str) -> f64 {
    hsbw_advance(font.charstring(name).unwrap())
}

#[test]
fn len_iv_minus_one_means_unencrypted_charstrings() {
    let mut private =
        b"abcd/lenIV -1 def /Subrs 0 array /CharStrings 1 dict dup begin /A 5 RD ".to_vec();
    private.extend_from_slice(&A_PLAIN);
    private.extend_from_slice(b" ND end");
    let font = Type1Font::parse(&pfb(&private)).unwrap();
    assert_eq!(advance_of(&font, "A"), 500.0);
}

#[test]
fn explicit_len_iv_is_honoured() {
    for len_iv in [0usize, 1, 4, 7] {
        let cs = charstring_encrypt(&A_PLAIN, len_iv);
        let mut private = format!(
            "abcd/lenIV {len_iv} def /Subrs 0 array /CharStrings 1 dict dup begin /A {} RD ",
            cs.len()
        )
        .into_bytes();
        private.extend_from_slice(&cs);
        private.extend_from_slice(b" ND end");
        let font = Type1Font::parse(&pfb(&private)).unwrap();
        assert_eq!(advance_of(&font, "A"), 500.0, "lenIV {len_iv}");
    }
}

#[test]
fn missing_len_iv_defaults_to_four() {
    let cs = charstring_encrypt(&A_PLAIN, 4);
    let mut private = format!(
        "abcd/Subrs 0 array /CharStrings 1 dict dup begin /A {} RD ",
        cs.len()
    )
    .into_bytes();
    private.extend_from_slice(&cs);
    private.extend_from_slice(b" ND end");
    let font = Type1Font::parse(&pfb(&private)).unwrap();
    assert_eq!(advance_of(&font, "A"), 500.0);
}

#[test]
fn other_negative_len_iv_is_an_error() {
    let mut private =
        b"abcd/lenIV -2 def /Subrs 0 array /CharStrings 1 dict dup begin /A 5 RD ".to_vec();
    private.extend_from_slice(&A_PLAIN);
    private.extend_from_slice(b" ND end");
    assert!(Type1Font::parse(&pfb(&private)).is_err());
}

fn two_glyph_private() -> Vec<u8> {
    let a = charstring_encrypt(&A_PLAIN, 4);
    // `0 250 hsbw endchar`
    let b = charstring_encrypt(&[139, 247, 142, 13, 14], 4);
    let s0 = charstring_encrypt(&[11], 4);
    let mut p = format!("abcd/Subrs 2 array\ndup 1 {} RD ", s0.len()).into_bytes();
    p.extend_from_slice(&s0);
    p.extend_from_slice(format!(" NP\nND /CharStrings 3 dict dup begin\n/B {} RD ", b.len()).as_bytes());
    p.extend_from_slice(&b);
    p.extend_from_slice(format!(" ND\n/A {} RD ", a.len()).as_bytes());
    p.extend_from_slice(&a);
    p.extend_from_slice(format!(" ND\n/B {} RD ", a.len()).as_bytes());
    p.extend_from_slice(&a);
    p.extend_from_slice(b" ND\nend");
    p
}

#[test]
fn clear_text_entries_are_read() {
    let font = Type1Font::parse(&pfb(&two_glyph_private())).unwrap();
    assert_eq!(font.font_name, "Probe");
    assert_eq!(font.font_matrix_text.as_deref(), Some(&b"0.001 0 0 0.001 0 0"[..]));
    assert_eq!(font.encoding.len(), 256);
    assert_eq!(font.encoding[65].as_deref(), Some("A"));
    assert_eq!(font.encoding[0o256].as_deref(), Some("fi"));
    assert_eq!(font.encoding[0], None);
}

#[test]
fn charstrings_and_subrs_are_read_in_order() {
    let font = Type1Font::parse(&pfb(&two_glyph_private())).unwrap();
    assert_eq!(font.glyph_names, vec!["B", "A", "B"]);
    assert!(font.has_glyph("A"));
    assert!(font.has_glyph("B"));
    assert!(!font.has_glyph("C"));
    assert!(font.charstring("C").is_none());
    // the later definition of B replaces the earlier one
    assert_eq!(advance_of(&font, "B"), 500.0);
    assert_eq!(font.charstring("A").unwrap(), &A_PLAIN[..]);
    assert_eq!(font.subrs.len(), 2);
    assert_eq!(font.subr(0).unwrap(), &[] as &[u8]);
    assert_eq!(font.subr(1).unwrap(), &[11u8][..]);
    assert!(font.subr(2).is_none());
}

#[test]
fn built_in_encoding_from_dup_entries() {
    let clear = b"/FontName /Dup def\n/Encoding 256 array\n0 1 255 {1 index exch /.notdef put} for\ndup 65 /Alpha put\ndup 300 /Big put\ndup 66 Beta put\nreadonly def\ndup 67 /Late put\ncurrentfile eexec\n";
    let mut private = b"abcd/lenIV -1 def /CharStrings 1 dict dup begin /A 5 RD ".to_vec();
    private.extend_from_slice(&A_PLAIN);
    private.extend_from_slice(b" ND end");
    let font = Type1Font::parse(&pfb_with(clear, &private)).unwrap();
    assert_eq!(font.font_name, "Dup");
    assert!(font.font_matrix_text.is_none());
    assert_eq!(font.encoding[65].as_deref(), Some("Alpha"));
    assert_eq!(font.encoding[66], None);
    assert_eq!(font.encoding[67], None);
    assert_eq!(font.encoding.iter().filter(|n| n.is_some()).count(), 1);
    assert!(font.subrs.is_empty());
}

#[test]
fn pfa_in_hexadecimal_and_in_binary() {
    let private = two_glyph_private();
    let encrypted = eexec_encrypt(&private);
    let mut hex = CLEAR.to_vec();
    hex.extend_from_slice(b"\r\n");
    for (k, b) in encrypted.iter().enumerate() {
        hex.extend_from_slice(format!("{b:02X}").as_bytes());
        if k % 32 == 31 {
            hex.push(b'\n');
        }
    }
    hex.extend_from_slice(b"\n0000000000000000\ncleartomark\n");
    let font = Type1Font::parse(&hex).unwrap();
    assert_eq!(font.glyph_names, vec!["B", "A", "B"]);
    assert_eq!(advance_of(&font, "A"), 500.0);

    let mut bin = CLEAR.to_vec();
    bin.push(b' ');
    bin.extend_from_slice(&[0xF0]);
    bin.extend_from_slice(&encrypted);
    let (clear, binary) = split_segments(&bin).unwrap();
    assert_eq!(clear, CLEAR[..CLEAR.len() - 6].to_vec());
    assert_eq!(binary[0], 0xF0);
    assert_eq!(&binary[1..], &encrypted[..]);
}

#[test]
fn splitting_errors() {
    assert_eq!(split_segments(b"no section here").unwrap_err().message, "no eexec section");
    let mut data = vec![128, 1, 10, 0, 0, 0];
    data.extend_from_slice(b"abc");
    assert_eq!(split_segments(&data).unwrap_err().message, "truncated PFB segment");
    let data = vec![128, 5, 0, 0, 0, 0];
    assert_eq!(split_segments(&data).unwrap_err().message, "bad PFB segment type 5");
    let data = vec![128, 1, 2, 0, 0, 0, b'h', b'i', 128, 3];
    assert_eq!(split_segments(&data).unwrap(), (b"hi".to_vec(), Vec::new()));
}

#[test]
fn a_pfb_file_splits_into_what_it_was_made_of() {
    let clear = b"some clear text".to_vec();
    let binary = vec![1u8, 2, 3, 0x80, 3];
    let mut file = vec![0x80, 1];
    file.extend_from_slice(&(clear.len() as u32).to_le_bytes());
    file.extend_from_slice(&clear);
    file.extend_from_slice(&[0x80, 2]);
    file.extend_from_slice(&(binary.len() as u32).to_le_bytes());
    file.extend_from_slice(&binary);
    file.extend_from_slice(&[0x80, 3]);
    assert_eq!(split_segments(&file).unwrap(), (clear, binary));
}

#[test]
fn font_errors() {
    let private = b"abcd/lenIV 4 def no charstrings here".to_vec();
    assert_eq!(Type1Font::parse(&pfb(&private)).unwrap_err().message, "no /CharStrings");
    let private = b"abcd/CharStrings 1 dict dup begin /A 500 RD abc ND end".to_vec();
    assert_eq!(
        Type1Font::parse(&pfb(&private)).unwrap_err().message,
        "charstring A runs past end"
    );
    let private = b"abcd/CharStrings 1 dict dup begin /A -5 RD abc ND end".to_vec();
    assert!(Type1Font::parse(&pfb(&private)).is_err());
}

#[test]
fn decrypting_what_was_encrypted_gives_it_back() {
    let plain = b"any charstring bytes".to_vec();
    for front in [0usize, 1, 4, 9] {
        let enc = charstring_encrypt(&plain, front);
        assert_eq!(decrypt(&enc, 4330, front), plain, "front {front}");
    }
    let enc = eexec_encrypt(b"abcdrest");
    assert_eq!(decrypt(&enc, 55665, 4), b"rest".to_vec());
    assert_eq!(decrypt(&enc, 55665, 8), Vec::<u8>::new());
    assert_eq!(decrypt(&enc, 55665, 100), Vec::<u8>::new());
}

#[test]
fn charstring_numbers_and_operators() {
    let cs = [139u8, 32, 246, 247, 0, 250, 255, 251, 0, 254, 255, 255, 255, 255, 255, 254, 255, 0, 0, 1, 0, 12, 6, 21];
    let mut toks = Vec::new();
    let mut i = 0;
    while let Some((t, n)) = next_token(&cs, i).unwrap() {
        toks.push(t);
        i = n;
    }
    assert_eq!(
        toks,
        vec![
            CsToken::Number(0),
            CsToken::Number(-107),
            CsToken::Number(107),
            CsToken::Number(108),
            CsToken::Number(1131),
            CsToken::Number(-108),
            CsToken::Number(-1131),
            CsToken::Number(-2),
            CsToken::Number(256),
            CsToken::Escape(6),
            CsToken::Op(21),
        ]
    );
    assert_eq!(next_token(&[247], 0), Err(CsFault::TruncatedNumber));
    assert_eq!(next_token(&[255, 0, 0, 0], 0), Err(CsFault::TruncatedNumber));
    assert_eq!(next_token(&[12], 0), Err(CsFault::TruncatedEscape));
    assert_eq!(next_token(&[14], 1), Ok(None));
}
