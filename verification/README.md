# effect_cache

Bookkeeping of the GPU memory shared by particle effects, verified with Verus.

- `src/allocation.rs`: how a buffer divides its particles into slices; `src/allocation_laws.rs`:
  what holds of them across operations.
- `src/buffer.rs`: effect buffers. `src/plan.rs` describes the GPU objects that back one, and
  `src/indirect.rs` writes the initial content of its indirect buffer.
- `src/cache.rs`: the cache of effect instances; `src/cache_laws.rs`: what holds of it across
  operations.
- `src/layout.rs`, `src/slice.rs`, `src/decimal.rs`: layouts, slices, labels.
- `src/asset.rs`, `src/effect_map.rs`: identifiers and the hash map of `bevy`.
- `app/`: creates the GPU objects on a render device and hands them to the library.
