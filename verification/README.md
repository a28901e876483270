# cogito

The operational world of the wintermute box — its daemons, sockets, buses,
tools, sessions — written down as a declarative spec and forged into an OWL 2 DL
TBox, with the logic verified by Verus.

Layout:

- `src/spec.rs` — the spec model (`CogitoSpec`, `ObjectPropertyDef`,
  `ClassDef`), its validation and loading, and the law that validation accepts
  exactly the well-formed specs.
- `src/text.rs` — Unicode white space, trimming, characters of strings.
- `src/class_expr.rs` — the class expression grammar (`A`, `p some C`,
  `C and D`, parentheses), its specification and its verified parser.
- `src/tbox.rs` — the axioms that a spec denotes, the OWL/XML document built
  from them, and the counts of a built document.
- `src/owl.rs` — the trusted boundary to horned-owl (ontology, prefix mapping,
  OWL/XML writer and reader).
- `src/laws.rs` — laws relating the spec to its TBox.
- `app/` — the `cogito tbox build|check|stats` command line: argument parsing,
  files, TOML, and the optional `ousia-reason` profile check.
