# sabiface

Reading the fonts that a TeX engine uses, with the reading proved correct by
Verus: metrics (TFM, JFM, VF, AFM), PostScript encoding vectors (`.enc`),
font map files (`pdftex.map`, `kanjix.map`), Type 1 fonts (PFB and PFA:
segments, eexec and charstring decryption, the dictionary entries and the
charstring encoding) and OpenType faces through ttf-parser.

Layout:

- `src/`: the verified library. Each parser is stated as a specification
  function over the file's bytes, and the parser's `ensures` says that what
  it returns is exactly what that function gives, errors included.
- `app/`: the floating-point side: outlines and their bounding boxes, the
  Type 1 charstring interpreter (its operand stack is real-valued), OpenType
  outlines through ttf-parser's `OutlineBuilder`, real-valued metrics, and
  error types with `Display`.
- `tests/`: fonts and metric files built byte by byte.
