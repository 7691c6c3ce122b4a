# djvulpes

DjVu parsing, rendering and PDF conversion, with what each function does stated in its
contract and proved by Verus.

- `src/chunk.rs`, `src/info.rs`, `src/dirm.rs`, `src/page.rs`, `src/document.rs`: the IFF
  structure of a document, its directory, its pages and the forms that they share.
- `src/bitstream.rs`, `src/zp.rs`, `src/zp_tables.rs`: bits, and the ZP decoder.
- `src/bzz.rs` and `src/bzz/`: BZZ decoding; `src/navm.rs`: bookmarks.
- `src/jb2.rs` and `src/jb2/`: JB2 dictionaries, records and masks.
- `src/iw44.rs` and `src/iw44/`: IW44 headers, coefficients, wavelet transform and colours.
- `src/render.rs` and `src/render/`: the plan of a page, its layers, and its bitmap.
- `src/pdf.rs` and `src/pdf/`: PDF files, with Group 4 masks, hidden text and an outline.
- `src/inspect.rs` and `src/inspect/`: what the samples round a pixel are made of.
- `src/report.rs` and `src/report/`: what the commands print.
- `src/text.rs`, `src/number.rs`, `src/ranking.rs`, `src/bitonal.rs`: what the rest shares.
- `app/`: the command line. It reads and writes files and runs the `bzz` tool, where the
  decoder of the library asks for it.

What comes from outside and is believed is small: `String::push`, the check and the errors
of UTF-8, quoted text, and zlib streams. Each such item says what is claimed of it.
