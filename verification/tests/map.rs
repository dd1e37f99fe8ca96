//! Font map files: `pdftex.map` and `kanjix.map` lines.

use sabiface::fontmap::FontMap;

#[test]
fn parses_typical_pdftex_map_lines() {
    let mut m = FontMap::default();
    m.add_pdftex_map(
        "cmr10 CMR10 <cmr10.pfb\nptmr8r Times-Roman \"TeXBase1Encoding ReEncodeFont\" <8r.enc <ptmr8a.pfb\nptmro8r Times-Roman \".167 SlantFont TeXBase1Encoding ReEncodeFont\" <8r.enc <ptmr8a.pfb\nlmr10 LMRoman10-Regular <lmr10.pfb\n",
    );
    let c = m.get("cmr10").unwrap();
    assert_eq!(c.font_file.as_deref(), Some("cmr10.pfb"));
    assert_eq!(c.encoding_file, None);
    let t = m.get("ptmr8r").unwrap();
    assert_eq!(t.ps_name, "Times-Roman");
    assert_eq!(t.encoding_file.as_deref(), Some("8r.enc"));
    assert_eq!(t.font_file.as_deref(), Some("ptmr8a.pfb"));
    assert_eq!(
        m.get("ptmro8r")
            .unwrap()
            .slant
            .as_deref()
            .and_then(|s| s.parse::<f64>().ok()),
        Some(0.167)
    );
}

#[test]
fn parses_kanjix_map_lines() {
    let mut m = FontMap::default();
    m.add_kanji_map("% comment\nrml H HaranoAjiMincho-Regular.otf\nupjisr-h UniJIS-UTF16-H HaranoAjiMincho-Regular.otf\nuprml-v UniJIS-UTF16-V :0:HaranoAjiMincho-Regular.otf\n");
    assert_eq!(m.get_kanji("upjisr-h").unwrap().cmap, "UniJIS-UTF16-H");
    assert_eq!(
        m.get_kanji("uprml-v").unwrap().font_file,
        ":0:HaranoAjiMincho-Regular.otf"
    );
}

#[test]
fn later_lines_replace_earlier_ones_and_other_names_stay() {
    let mut m = FontMap::new();
    m.add_pdftex_map("a A <a.pfb\nb B <b.pfb\n");
    m.add_pdftex_map("a A2 <a2.pfb\n% a comment\n# another\n\n");
    assert_eq!(m.get("a").unwrap().ps_name, "A2");
    assert_eq!(m.get("a").unwrap().font_file.as_deref(), Some("a2.pfb"));
    assert_eq!(m.get("b").unwrap().ps_name, "B");
    assert!(m.get("c").is_none());
    assert_eq!(m.entries.len(), 2);
}

#[test]
fn pdftex_words_are_sorted_out() {
    let mut m = FontMap::new();
    m.add_pdftex_map("x\ny Y <<y.ttf <[y.enc -r extra \" 1.2 ExtendFont \"\nz <z.enc\n");
    let x = m.get("x").unwrap();
    assert_eq!(x.ps_name, "x");
    assert_eq!(x.font_file, None);
    let y = m.get("y").unwrap();
    assert_eq!(y.font_file.as_deref(), Some("y.ttf"));
    assert_eq!(y.encoding_file.as_deref(), Some("y.enc"));
    assert_eq!(y.extra, vec!["-r", "extra"]);
    assert_eq!(y.extend.as_deref(), Some("1.2"));
    assert_eq!(y.slant, None);
    assert_eq!(m.get("z").unwrap().encoding_file.as_deref(), Some("z.enc"));
}

#[test]
fn kanji_lines_need_three_words() {
    let mut m = FontMap::new();
    m.add_kanji_map("short line\n  rml  H  a.otf  extra\n");
    assert!(m.get_kanji("short").is_none());
    let r = m.get_kanji("rml").unwrap();
    assert_eq!(r.tfm_name, "rml");
    assert_eq!(r.font_file, "a.otf");
    assert_eq!(m.kanji.len(), 1);
}

#[test]
fn map_lines_keep_text_beyond_ascii() {
    let mut m = FontMap::default();
    m.add_kanji_map("明朝-h UniJIS-UTF16-H 源ノ明朝.otf\n");
    let k = m.get_kanji("明朝-h").unwrap();
    assert_eq!(k.font_file, "源ノ明朝.otf");
    m.add_pdftex_map("fé10 Fé-Regular \"0.2 SlantFont\" <fé.pfb\n");
    let e = m.get("fé10").unwrap();
    assert_eq!(e.ps_name, "Fé-Regular");
    assert_eq!(e.font_file.as_deref(), Some("fé.pfb"));
    assert_eq!(e.slant.as_deref(), Some("0.2"));
}
