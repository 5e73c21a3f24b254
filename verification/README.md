# lunar_ecs

The integer-level core of a small game engine, written in Verus:

- `ecs`: entities that hold at most one component of each type, a world that
  answers queries for all components of a type from a cache that is kept
  coherent with the entities, and the laws that tie adding, removing and
  querying together.
- `asset_managment`: a store of type-erased, lockable assets keyed by random
  ids.
- `bmp`: decoding of 32-bit bitmap files.
- `rendering`: grouping of mesh components into instanced draw calls, the
  buffer layout of screenshots, file names of screenshots and their PNG
  encoding.
- `swizzle`: the source text of swizzle accessors for vector types.

`app/` holds what stays outside verification: floating-point math,
components with `f32` data, frustum culling, file access and a small demo.
