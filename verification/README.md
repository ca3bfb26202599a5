# font_kit

A verified library of the logic of a font toolkit: font sources and lookup by family or
PostScript name, CSS Fonts Level 3 font matching, font collection headers, glyph outline
decoding, face properties from `OS/2` and `name` table values, and canvas blitting. The
library's functions carry contracts that Verus proves; the few calls into the standard
library and outside crates that Verus cannot read stand behind small trusted wrappers.

Layout:

- `src/` — the library, one module per concern (`matching`, `family`, `canvas`, `file_type`,
  `outline`, `sfnt`, `raster`, `sources::{mem, fs, multi, fontconfig}`, ...).
- `tests/` — tests of the library on concrete values.
- `app/` — file-system discovery of fonts (with `walkdir`), conversion of sizes to `euclid`,
  and the floating-point conversion of outline coordinates, which stay unverified.
