# studio_core

The logic of the Axiom ASCII game studio and its terminal runtime, written in
Verus and proved against its contracts.

`src/` is the verified library:

- `text`, `text_layout`: character-level string helpers (trim, pattern
  removal, prefix tests), line splitting, wrapping and alignment of text
  layers.
- `depth_sort`: the stable sort by depth that every drawing order uses, with
  its laws (sorted, a permutation, stable).
- `border`, `composer`, `ui_cells`: which glyphs a directional border, a
  generated texture layer or a UI layer draws into a cell, and in which order
  layers are painted.
- `texture`, `types`, `object`: the data model's discrete parts and their
  defaults.
- `history`: the bounded undo/redo history.
- `navigation`: scene navigation driven by events, and the canvas's drawing
  order of scene elements.
- `outline`, `transforms`: explorer trees, cycle-free reparenting of object
  parts, and the order in which part transforms are computed.
- `viewport`, `cache`: shading modes, face materials, triangulation indices
  and the composed-texture cache.

`app/` holds the terminal runtime, the serde data files, the floating-point
rendering helpers and the calls into `earcutr` and `fasteval`. `tests/` runs
the library on concrete values.
