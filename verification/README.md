# convr

A universal local file converter: documents (Markdown, HTML, plain text),
images (PNG, JPEG, WebP, AVIF, GIF, BMP, TIFF, ICO, SVG) and data formats
(JSON, YAML, TOML, CSV, XML).

```
convr --to html notes.md
convr --to avif *.png --out ./converted/
convr --to yaml data.json
```

## Layout

- `src/` is the library, verified with Verus: format recognition
  (`formats`, `detect`), conversion routing (`convert`, `image`,
  `document`, `data`), SVG rendering to PNG bytes (`image`), the JSON value model the data formats pass through
  (`json`), the data conversions through it (`data`), its CSV and XML
  bridges (`csv_data`, `xml_data`), and batch
  bookkeeping (`batch`). Calls into the JSON, YAML, TOML, CSV, XML, Markdown, SVG and
  signature libraries go through small trusted wrappers whose contracts are stated in
  their doc comments.
- `app/` is the command: argument parsing, globbing, file I/O and the
  raster image codecs.
- `tests/` exercises the library on concrete inputs.

The native backends (libheif, libvips, MuPDF) are optional and not part of
this build; `available_backends` reports them as unavailable, and HEIF or
PDF input is refused with a message saying so.
