# altiumdb

A component database for Altium Designer database libraries: category
tables of components in SQLite or PostgreSQL, the `.DbLib` link file that
points Altium at them, and readers for Altium `.SchLib` / `.PcbLib` files
to preview symbols and footprints.

The library in `src/` is written in Verus. Its functions carry contracts
that Verus proves, except ten small wrappers marked
`#[verifier::external_body]`: the calls into `cfb` (compound-file listing
and stream reading), into `semver` (version parsing and ordering) and a
few std text calls (`str::from_utf8`, `String::from_utf8_lossy`,
Unicode upper/lower case, `char::from_u32`, `String::push`). Their
contracts are believed, not proved; each one's doc comment says what it
claims of the call it makes. Where a result takes pages to state (the
compound-file directory, Unicode case mapping, lossy decoding, semver
parsing and order), a bodiless `uninterp spec fn` names it, and the
library's contracts speak of that name.

- `altium/`: record streams, footprint and symbol parsers, compound-file
  libraries (through the `cfb` crate), preview colours and framing.
- `altium_dbl.rs`, `dbl_round_trip.rs`: the `.DbLib` format, its editing
  operations, and the round-trip laws of reading what was written.
- `db.rs`, `statements.rs`: SQL for the category tables, PostgreSQL value
  handling and connection strings, and the statements that write
  components and bring older tables up to date.
- `import.rs`: what an LCSC product or a spreadsheet row imports.
- `paths.rs`, `settings.rs`, `render.rs`, `update.rs`, `text.rs`: Windows
  path text, settings, the preview helper's command line, release
  checks (through `semver`), and text utilities.

`app/` is the command-line program around it: files, the database
connection, HTTP, spreadsheets, the Python preview helper and the
floating-point SVG geometry.
