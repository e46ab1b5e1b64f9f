# docworks

A toolkit for office documents (DOCX, XLSX, PPTX) whose core is written in
Verus and proved against its contracts.

- `src/` is the library.  Each public function states what it returns in
  terms of mathematical models (sequences, maps, spec functions); calls into
  `quick-xml`, `regex`, `similar`, `sha2`, `serde_json`, `zip`, `calamine`
  and the standard library go through
  a small number of trusted wrappers whose contracts say what those crates
  document.
- `app/` is a command-line front end: it reads and writes files, writes ZIP
  archives to disk, loads and saves PDFs with `lopdf`, takes the time, and
  prints JSON.
- `tests/` exercise the library on concrete documents.

Modules: `coherence` (entity graph and propagation of edits), `formats`,
`validation` (rules and engine), `patchers` (text, cell and style patches),
`readers` (Word, Excel workbooks read from their bytes, PowerPoint),
`package` (ZIP packages read from their bytes), `integrity`, `diff`, `writers` (DOCX
enrichment and small writer helpers), `skill`/`skills` (skill definitions,
input validation, sheet layout, blank packages and template filling),
`pdf_form` (PDF text strings, XFA data, AcroForm field trees and fill
plans, page texts),
`template` (placeholder detection), `xml`, `json`, `text`, `paths`,
`hashing`.
