# epub_tailor

A library that fits EPUB books to small e-ink readers, written in Verus:
every function in `src/` carries a `requires`/`ensures` contract that the
verifier proves, and the properties that span functions (scrubbing twice
changes nothing, a second metadata merge changes nothing, pruning what was
kept keeps it, fitting never upscales, ...) stand as public proof functions
named `law_*`.

Layout:

- `src/` - the verified library. The image pipeline (`images`, `canvas`,
  `classify`, `autocontrast`, `resize`, `encode`, `split`, `pipeline`,
  `image_plan`) decodes and encodes through the `image` and
  `jpeg-encoder` crates; the reachability pass (`reachable`, `dangling`)
  searches with `aho-corasick`; resources live in an `indexmap::IndexMap`;
  Unicode normalization comes from `unicode-normalization`. Each call into
  one of these crates goes through a small trusted wrapper whose contract
  states what that crate's source shows, and nothing more.
- Parsing XHTML, Markdown and SVG, and rendering SVG, happen outside the
  library: the SVG pass (`svg_pass`), the inline-SVG and table decisions
  (`inline_svg`, `table_raster`) and the Markdown book assembly
  (`markdown_book`) take what those produce as arguments and are verified
  for every value of it.
- `tests/` - the test suite, run against the compiled library.
- `app/` - what the verifier does not see: YAML/JSON front matter through
  serde, the Open Library client's parsing, and file-system access.

Run the verifier over `src/lib.rs`; the tests are ordinary `cargo test`.
