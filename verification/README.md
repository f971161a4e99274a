# converter

A file conversion engine for a browser-based converter, written in Verus:
every function of the library carries a `requires`/`ensures` contract that
Verus proves.

## Layout

- `src/` — the verified library.
  - `formats.rs`: the formats read and written, the outputs offered for each
    input extension, format detection from a file name.
  - `conversion.rs`: `convert`, which picks the conversion for a pair of
    extensions and runs it.
  - `document.rs`, `markup.rs`, `docx.rs`, `pdf_text.rs`: Markdown, HTML,
    DOCX, RTF, PDF and base64 conversions; the PDF writer.
  - `spreadsheet.rs`, `json.rs`, `config_formats.rs`: CSV, TSV, JSON, YAML
    and TOML.
  - `image_conv.rs`, `archive.rs`, `audio.rs`: raster images, ZIP / tar.gz /
    tar.xz / 7z archives, and the decisions of the audio decoding loop.
  - `batch.rs`, `display.rs`, `readout.rs`: the workbench's batch of files,
    output names and MIME types, sizes and durations for display.
  - `text.rs`: character-level primitives shared by the converters.
- `tests/` — the test suite, run against the compiled library.
- `app/` — the Leptos front end: browser I/O, downloads, the SVG rasteriser
  and the audio decoder, which compute in floating point.

Calls into outside crates (comrak, lopdf, zip, csv, serde_json, image, …)
stand behind small trusted wrappers in `src/`, each with a doc comment that
says what its contract claims of the outside function.
