# nerve

The pure core of Nerve, an evidence graph over a code repository, written in Verus. Every
function in `src/` carries a contract that Verus proves, except a handful of trusted wrappers
around outside code, each marked `#[verifier::external_body]` and documented where it stands:
BLAKE3 hashing, `str::from_utf8`, `String::push`, the JSON and TOML parsers with the
conversion of their values into the library's plain types, and the printing of flat JSON
metadata objects.

- `src/` — the verified library: identities (`ids`), closed vocabularies (`vocab`), the graph
  model (`model`), path safety and discovery's decisions (`discover`), the configuration model
  (`config`), document links (`docref`), Markdown documents and ADR facts (`docs`), the LCOV
  reader and its merge (`coverage`), coverage attribution to symbols and the `COVERS` claims of a
  coverage run (`coverage_ingest`), the
  cross-repository contract rules and manifest parsing (`contracts`), the lexical binding table
  (`bind`), the module export closure (`exports`) and the canonical dump's rows (`dump`).
- `app/` — the parts that touch the world: walking the filesystem, reading and writing
  `.nerve/config.toml`, reading manifests from disk, turning tree-sitter syntax trees into the
  library's plain types, the error types with their messages, and the canonical dump.
- `tests/` — the library's tests, run against the compiled crate.
