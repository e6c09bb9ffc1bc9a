# compose

The layout core of a declarative UI toolkit, with its behaviour stated in
contracts and proved with Verus.

## Layout

- `src/` — the verified library.
  - `geometry` — sizes, offsets, directions, densities, constraints.
  - `node_kind` — the kinds of modifier node and their bit masks.
  - `modifier` — the modifier algebra: combining, flattening, folding,
    materialising composed modifiers.
  - `placeable`, `coordinator` — measured and placed state, placement
    scopes, measure results, node coordinators and their layers.
  - `modifier_node`, `node_chain` — the chain of modifier nodes a layout
    node is decorated with, its coordinators, and the walks over it
    (draw, hit testing, parent data).
  - `measure`, `layout_node`, `measure_and_layout_delegate` — measure and
    layout passes and the layout node tree.
  - `measure_layout_defer_action_manager` — actions deferred to the end of
    a pass.
  - `leak_token` — counting live objects per tag.
- `tests/` — tests of the library.
- `app/` — what runs around the library: per-thread identities and
  deferral scopes, the process-wide leak registry, skia graphics layers,
  floating-point pointer geometry and z ordering.

Nodes of a chain and coordinators are named by their index in the chain's
arenas; layout nodes by their identity.
