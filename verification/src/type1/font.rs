//! A Type 1 font as read from its file: its name, matrix text, built-in
//! encoding, subroutines and charstrings.

use vstd::prelude::*;
use crate::glyph::GlyphError;
use crate::text::same_text;
use crate::keyed::{distinct_keys, insert_all, keyed_map, law_insert_all_has_every_key, lemma_keyed_lookup};
use crate::text::utf8_lossy;
use crate::type1::cipher::{decrypt, decrypt_skip, encrypted, law_skip_after_encrypt, EEXEC_R};
use crate::type1::clear::{
    encoding_spec, extract_encoding, extract_matrix_text, extract_name, font_name_key, matrix_span,
    name_after, names_view,
};
use crate::type1::private::{
    charstrings_spec, entries_view, entry_names, glyph_key, texts, len_iv_spec, liv_of, parse_charstrings, parse_subrs,
    read_len_iv, subrs_spec,
};
use crate::type1::segments::{law_split_pfb_file, pfb_file, split_segments, split_spec};

verus! {

#[derive(Debug, Clone)]
pub struct Type1Font {
    pub font_name: String,
    /// The text between the brackets of `/FontMatrix` (usually
    /// `0.001 0 0 0.001 0 0`); `None` when the font writes no matrix.
    pub font_matrix_text: Option<Vec<u8>>,
    /// The built-in encoding: 256 glyph names, `None` for `.notdef`.
    pub encoding: Vec<Option<String>>,
    /// The decrypted subroutines.
    pub subrs: Vec<Vec<u8>>,
    /// The decrypted charstrings, one entry per glyph name.
    pub charstrings: Vec<(String, Vec<u8>)>,
    /// The glyph names in the order the charstrings are defined.
    pub glyph_names: Vec<String>,
}

/// What a font file is made of once read: its clear text, its decrypted
/// private part, how its charstrings are stored and the charstrings in
/// the order they are defined; or the message of the first fault.
pub open spec fn font_parts(data: Seq<u8>) -> Result<(Seq<u8>, Seq<u8>, Option<int>, Seq<(Seq<char>, Seq<u8>)>), Seq<char>> {
    match split_spec(data) {
        Err(m) => Err(m),
        Ok((c, b)) => {
            let p = decrypt_skip(b, EEXEC_R as int, 4);
            match len_iv_spec(p) {
                None => Err("bad lenIV"@),
                Some(liv) => match charstrings_spec(p, liv) {
                    Err(m) => Err(m),
                    Ok(es) => Ok((c, p, liv, es)),
                },
            }
        },
    }
}

/// The font name: the token after `/FontName`, empty when there is none.
pub open spec fn font_name_spec(c: Seq<u8>) -> Seq<char> {
    match name_after(c, font_name_key()) {
        Some(b) => utf8_lossy(b),
        None => Seq::empty(),
    }
}

/// Each name in the list of definitions is a key of the charstrings.
proof fn lemma_names_have_glyphs(f: Type1Font, es: Seq<(Seq<char>, Seq<u8>)>)
    requires
        f.glyphs() == insert_all(Map::empty(), es, glyph_key()),
        texts(f.glyph_names@) == entry_names(es),
    ensures
        forall|j: int| 0 <= j < f.glyph_names@.len() ==> f.glyphs().contains_key((#[trigger] f.glyph_names@[j])@),
{
    assert forall|j: int| 0 <= j < f.glyph_names@.len() implies f.glyphs().contains_key(
        (#[trigger] f.glyph_names@[j])@,
    ) by {
        assert(texts(f.glyph_names@).len() == f.glyph_names@.len());
        assert(entry_names(es).len() == es.len());
        assert(texts(f.glyph_names@)[j] == entry_names(es)[j]);
        law_insert_all_has_every_key(Map::empty(), es, glyph_key(), j);
        assert((glyph_key())(es[j]) == es[j].0);
    }
}

impl Type1Font {
    /// No two charstring entries have the same name.
    pub open spec fn wf(&self) -> bool {
        distinct_keys(entries_view(self.charstrings@), glyph_key())
    }

    /// The charstrings by glyph name, each with its name.
    pub open spec fn glyphs(&self) -> Map<Seq<char>, (Seq<char>, Seq<u8>)> {
        keyed_map(entries_view(self.charstrings@), glyph_key())
    }

    /// The decrypted subroutines.
    pub open spec fn subroutines(&self) -> Seq<Seq<u8>> {
        self.subrs@.map_values(|s: Vec<u8>| s@)
    }

    /// Reads a PFB or PFA file. It fails when the file cannot be split into
    /// clear text and eexec part, when `/lenIV` is negative but not -1, when
    /// there is no `/CharStrings`, or when a charstring runs past the end.
    pub fn parse(data: &[u8]) -> (r: Result<Type1Font, GlyphError>)
        ensures
            match (r, font_parts(data@)) {
                (Ok(f), Ok((c, p, liv, es))) => {
                    &&& f.wf()
                    &&& f.encoding@.len() == 256
                    &&& f.font_name@ == font_name_spec(c)
                    &&& match (f.font_matrix_text, matrix_span(c)) {
                        (Some(t), Some((a, b))) => t@ == c.subrange(a, b),
                        (None, None) => true,
                        _ => false,
                    }
                    &&& names_view(f.encoding@) == encoding_spec(c)
                    &&& f.subroutines() == subrs_spec(p, liv)
                    &&& f.glyphs() == insert_all(Map::empty(), es, glyph_key())
                    &&& texts(f.glyph_names@) == entry_names(es)
                    &&& forall|j: int| 0 <= j < f.glyph_names@.len() ==> f.glyphs().contains_key(
                        (#[trigger] f.glyph_names@[j])@,
                    )
                },
                (Err(e), Err(msg)) => e.message@ == msg,
                _ => false,
            },
    {
        let (clear, binary) = match split_segments(data) {
            Ok(parts) => parts,
            Err(e) => {
                return Err(e);
            },
        };
        let key: [u8; 9] = [47, 70, 111, 110, 116, 78, 97, 109, 101];
        let ks = key.as_slice();
        assert(ks@ =~= font_name_key());
        let font_name = match extract_name(clear.as_slice(), ks) {
            Some(s) => s,
            None => String::new(),
        };
        let font_matrix_text = extract_matrix_text(clear.as_slice());
        let encoding = extract_encoding(clear.as_slice());
        let private = decrypt(binary.as_slice(), EEXEC_R, 4);
        let len_iv = match read_len_iv(private.as_slice()) {
            Ok(l) => l,
            Err(e) => {
                return Err(e);
            },
        };
        let subrs = parse_subrs(private.as_slice(), len_iv);
        let (charstrings, glyph_names) = match parse_charstrings(private.as_slice(), len_iv) {
            Ok(parts) => parts,
            Err(e) => {
                return Err(e);
            },
        };
        let font = Type1Font { font_name, font_matrix_text, encoding, subrs, charstrings, glyph_names };
        proof {
            assert(len_iv_spec(private@) == Some(liv_of(len_iv)));
            lemma_names_have_glyphs(font, charstrings_spec(private@, liv_of(len_iv))->Ok_0);
        }
        Ok(font)
    }

    fn position_of(&self, name: &str) -> (r: Option<usize>)
        requires
            self.wf(),
        ensures
            match r {
                Some(j) => j < self.charstrings@.len() && self.glyphs().contains_key(name@)
                    && self.glyphs()[name@] == entries_view(self.charstrings@)[j as int],
                None => !self.glyphs().contains_key(name@),
            },
    {
        let ghost v = entries_view(self.charstrings@);
        proof {
            lemma_keyed_lookup(v, glyph_key(), name@);
        }
        let mut j: usize = 0;
        while j < self.charstrings.len()
            invariant
                self.wf(),
                v == entries_view(self.charstrings@),
                j <= self.charstrings@.len(),
                forall|m: int| 0 <= m < j ==> (#[trigger] self.charstrings@[m]).0@ != name@,
                keyed_map(v, glyph_key()).contains_key(name@) <==> exists|i: int|
                    0 <= i < v.len() && (glyph_key())(v[i]) == name@,
                forall|i: int|
                    0 <= i < v.len() && (glyph_key())(v[i]) == name@ ==> keyed_map(v, glyph_key())[name@] == v[i],
            decreases self.charstrings@.len() - j,
        {
            if same_text(self.charstrings[j].0.as_str(), name) {
                assert(v[j as int].0 == name@);
                return Some(j);
            }
            j = j + 1;
        }
        assert forall|i: int| 0 <= i < v.len() implies (glyph_key())(v[i]) != name@ by {
            assert(v[i].0 == self.charstrings@[i].0@);
        }
        None
    }

    /// Whether the font has a charstring named `name`.
    pub fn has_glyph(&self, name: &str) -> (r: bool)
        requires
            self.wf(),
        ensures
            r == self.glyphs().contains_key(name@),
    {
        self.position_of(name).is_some()
    }

    /// The decrypted charstring named `name`.
    pub fn charstring(&self, name: &str) -> (r: Option<&[u8]>)
        requires
            self.wf(),
        ensures
            match r {
                Some(b) => self.glyphs().contains_key(name@) && b@ == self.glyphs()[name@].1,
                None => !self.glyphs().contains_key(name@),
            },
    {
        match self.position_of(name) {
            Some(j) => Some(self.charstrings[j].1.as_slice()),
            None => None,
        }
    }

    /// The glyph name at `code` of the built-in encoding; `None` for `.notdef`.
    pub fn code_name(&self, code: u8) -> (r: Option<&str>)
        requires
            self.encoding@.len() == 256,
        ensures
            match (r, self.encoding@[code as int]) {
                (Some(n), Some(e)) => n@ == e@,
                (None, None) => true,
                _ => false,
            },
    {
        match &self.encoding[code as usize] {
            Some(n) => Some(n.as_str()),
            None => None,
        }
    }

    /// The decrypted subroutine `i`.
    pub fn subr(&self, i: usize) -> (r: Option<&[u8]>)
        ensures
            match r {
                Some(b) => i < self.subroutines().len() && b@ == self.subroutines()[i as int],
                None => i >= self.subroutines().len(),
            },
    {
        if i < self.subrs.len() {
            Some(self.subrs[i].as_slice())
        } else {
            None
        }
    }
}

/// A PFB file made of a clear text and an eexec part that encrypts four
/// random bytes followed by a private part is split back into that clear
/// text and eexec part, and the eexec part decrypts to the private part.
pub proof fn law_pfb_private_part(clear: Seq<u8>, front: Seq<u8>, private: Seq<u8>)
    requires
        clear.len() < 4294967296,
        front.len() == 4,
        front.len() + private.len() < 4294967296,
    ensures
        split_spec(pfb_file(clear, encrypted(front + private, EEXEC_R as int))) == Ok::<(Seq<u8>, Seq<u8>), Seq<char>>(
            (clear, encrypted(front + private, EEXEC_R as int)),
        ),
        decrypt_skip(encrypted(front + private, EEXEC_R as int), EEXEC_R as int, 4) == private,
{
    law_split_pfb_file(clear, encrypted(front + private, EEXEC_R as int));
    law_skip_after_encrypt(front, private, EEXEC_R as int);
}

} // verus!
