# concordia_crossing

Verified core of 协和线交台, a local workbench for U-Pb discordia lines and their
intersections with the concordia curve.

- `src/` — the library, verified with Verus: coordinate conventions and
  common-lead provenance (`model`, `geometry`, `fixtures`), point validation
  decisions (`geometry`), branch planning and leave-one-out bookkeeping
  (`analysis`), canonical JSON text and run fingerprints (`json`,
  `member_order`), intersection labelling and tangent reporting (`solve`,
  `intersection`), request validation (`web`) and command-line parsing
  (`options`). SHA-256 is computed by the `sha2` crate.
- `app/` — the program around it: floating-point geometry, regression and
  root finding, the SQLite store, the axum server and `main`.
- `tests/` — tests of the library on concrete values.
