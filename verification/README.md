# voxels

A voxel and space-flight engine whose logic is a verified library.

- `src/` is the library, written in Verus: chunk storage and generation,
  the face mesher, chunk scheduling around the player, polynomial-map
  exponent enumeration, the chaos worker's state machine, key bindings,
  time-scale control, light and transform buffer layout, and sphere and
  cube index generation. Every public function carries a contract, and the
  laws that tie functions together are public proof functions.
- `tests/` runs the library on concrete values.
- `app/` is the unverified shell around it: GPU buffers, window input,
  worker threads, noise sampling and everything computed in floating point.
