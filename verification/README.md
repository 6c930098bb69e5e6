# rediff

Structural diffs of reflected values, verified with Verus.

What is proved, and how far:

- the diff tree and how two values are compared (`types`, `core_sequences`,
  `route`, `fields`, `sequences`), and the tree and compact text forms of a
  diff (`diff_text`, `display`, `leaf`, `format`, `path`), against exact
  specifications;
- the layout renderer for the Rust, JSON and XML flavors (`layout::render`),
  attribute grouping and the format arena: what rendering a layout writes is
  stated exactly;
- the builder that turns a diff into a layout (`layout::builder`): it is
  proved to produce a well-formed layout that the renderer accepts whenever
  the layout's text fits `u32` offsets, and what it builds is stated all the
  way down (`layout::shows`): values shown whole with their texts or fields,
  replacements as the old value deleted then the new one inserted, struct
  diffs with their attributes and a child per field with changes inside,
  sequence, tuple and option diffs with a child per nested diff and per
  item, and enum variants with unnamed fields by the part of their updates
  that the builder shows; every element built has its changed attributes
  grouped into aligned lines as `packed_groups` says.

Layout:

- `src/` is the verified library.
- `app/` reads Facet values by reflection and hands what it reads to the
  library (including the value table the layout builder reads); it also
  holds the floating-point color math of themes and the assertion macros.
- `tests/` exercises the library on concrete values.
