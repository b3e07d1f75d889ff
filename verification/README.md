# clearhead

Verified graph, export and editor-support library for ClearHead.

`src/` is the library, written in Verus and verified:

- `domain` — charters, plans, actions and their views.
- `vocab`, `rdf`, `text` — vocabulary IRIs, RDF terms and quads as plain values, string helpers.
- `insert` — the quads of a domain model (v4 vocabulary), with the laws the mapping keeps.
- `store`, `load` — the Oxigraph store behind trusted items; loading models, workspace metadata and Turtle.
- `query`, `shape`, `request` — SPARQL execution, vocabulary checks, index framing, the query request contract.
- `serialize` — phase filters and Turtle output.
- `json`, `jsonld` — JSON values and the canonical JSON-LD export.
- `lsp`, `telemetry` — language-server computations and telemetry locations.

`app/` is the command-line front end (`query`, `export-jsonld`, `lsp`). It reads a
workspace as the JSON-encoded domain model at `<root>/.clearhead/model.json`
(the same encoding `export-jsonld` reads from stdin) and the actions JSON-LD
context document from the path given with `--context`.
