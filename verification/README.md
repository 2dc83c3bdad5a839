# dockspace

A renderer-neutral docking scene core, verified with Verus.

- `src/` is the verified library: identities and exact integer geometry
  (`ids`, `geometry`), presentation records (`records`), measurement
  requirement manifests and their exact-set validation (`manifest`),
  canonically ordered key sets and maps (`collections`), a merge sort
  (`sorting`), splitter-junction derivation by a sweep over an interval index
  (`junction`), drop-occlusion authority (`occlusion`), the compiled
  presentation plan and its input routing (`plan`), plan-local validation of
  panes, tab bars and what each bar holds, tabs, splitters, contained
  presentations and occlusions (`validation`), the integer pre-checks of scene compilation and the
  roster-derived occlusion layers (`compile`), semantic receiver inventories
  (`semantic`), surface lifecycle stamps (`lifecycle`), per-surface scene
  revisions with the roster reconciliation decision (`revisions`), and the
  roster of surface scenes with its install, reconcile, demote, and
  presentation-confirmation transitions (`scene_set`).
- `tests/` exercises the library on concrete scenes.
- `app/` gives the library's error enums `Display` and `std::error::Error`
  through `thiserror`, with lossless conversions in both directions.
- Floating-point layout (projecting split trees, laying out tab strips,
  menus and drop guides) is not part of this crate: the embedding engine
  compiles the records, and the library checks and routes them.
