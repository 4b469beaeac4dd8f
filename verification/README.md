# lat

A catalogue of thinking patterns — natural languages and bound poetic forms —
served to AI agents as four read-only MCP tools (`search_patterns`,
`get_pattern`, `list_patterns`, `list_facets`).

## Layout

- `src/` — the verified library (Verus):
  - `models.rs` — pattern kinds, rows, patterns, facets, search filters, and
    their views;
  - `catalog.rs` — the two tables held in memory, ordered by name, names
    unique, each row read from its cells;
  - `db.rs` — search by filters, lookup by name, facets, the seeding decision,
    and the proved properties of the queries;
  - `like.rs` — SQL `LIKE` matching (`%`, `_`, ASCII case folding);
  - `json.rs` — the `tags` and `themes` of a pattern, parsed by `serde_json`,
    and what the tag and theme filters and facets read of those cells:
    SQLite's `json_each`, guarded by `json_valid` so that a malformed cell
    reads as `[]`, asked through one in-memory connection (`JsonReader`);
  - `text.rs` — characters of strings, Unicode trimming, code-point order;
  - `cli.rs` — the command line and the list of extra accepted hosts;
  - `server.rs` — tool parameters and the answer to a lookup that misses.
- `app/` — the program around it: SQLite file access (rusqlite), the MCP server
  (rmcp) over stdio or streamable HTTP (axum), logging, environment variables.
- `tests/` — tests of the library on concrete values.
