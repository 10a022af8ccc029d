# scene_builder

The verified core of a 3D class-diagram viewer. Classes read from a JSON
file are drawn as a tree: each class hangs below its superclass, subclasses
are packed side by side, classes can be collapsed (their subtree fades out),
associations between classes are drawn as coloured beams, and the URL hash
selects pages.

`src/` holds the decisions, each with a Verus contract:

- `url_hash` — parsing `#fk.page.tab/...` hashes (`text` has the splitting
  and `u16` reading it uses);
- `registry` — the key → entity registry and the string-keyed map under it;
- `layout` — subtree widths and the layout of a class tree (positions in
  quarter units, so that they stay exact integers);
- `collapse` — what fades when a class collapses or expands;
- `classes` — turning a class entry into a drawing plan;
- `associations` — resolving association ends, depth steps (FNV-1a) and hues;
- `colors` — reading `#RRGGBB` colours and the colour file;
- `visuals` — highlight levels, the glow a piece shows and remembers, and the per-class connector pieces;
- `assets` — stacking the six skybox faces;
- `argonaut` — reading the argonaut file's JSON text (single `serde_json` calls: parse, `as_array`, `get`, `as_str`) and selecting the entries to store.

`app/` is the Bevy program around it: window, plugins, asset loading, the
database, spawning entities and the floating-point animation.
