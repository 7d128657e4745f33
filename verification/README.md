# diavolo_format

The verified core of Diavolo's archive format tooling.

- `src/field.rs`: little-endian field accessors (`U16`, `U32`, `U64`, `I64`,
  `Bytes<N>`) over a record's bytes. A read of a field that the record is too
  short to hold gives `None`; a read after a write gives what was written.
- `src/schema.rs`: the model of `docs/spec/format.yaml` and `rules.yaml`,
  lookups by name, field type widths and rule variant names.
- `src/validate/`: the semantic checks of a specification, one module per
  section, each with an exact statement of the problems it reports, and the
  laws that hold of a specification with no problem.
- `src/strmap.rs`, `src/text.rs`: a string-keyed map in ascending key order,
  and text primitives (equality, order, prefixes, decimal numbers).
- `app/`: the `xtask` program, reading the YAML files with serde and listing
  the spec directory, and the wording of each problem.
