# monty — metadata propagation, verified

`monty` tracks the provenance of values inside a small Python interpreter. Every value
carries a metadata record with three label sets: *producers* (union on merge), *consumers*
(intersection on merge, `None` meaning universal) and *tags* (union on merge). Records are
interned in a store, so a value only carries a `MetadataId`, and containers keep one id
per element.

The library in `src/` is written in Verus. Its functions are verified against their
contracts, except the small `external_body` wrappers in `label_vec`, `store_maps`,
`name_sets` and `vm` (`char_string`), which call `smallvec`, `ahash` and the standard
library and whose contracts restate what those calls do.

- `label_vec`, `label_set`: sorted label-id sets with a universal set, and their union and
  intersection.
- `metadata`, `store`, `store_maps`, `name_sets`: metadata records, the interning store and
  the boundary type `ObjectMetadata`.
- `laws`: the algebra of merging, the store's guarantees and element-level tracking in the
  virtual machine, as proof functions.
- `value`, `heap`, `vm`, `collections`, `iter`, `args`, `builtins`, `modules`: the virtual
  machine state and the operations that build, unpack and iterate containers.
- `exceptions`, `display`, `io`, `field_args`: errors and their messages, `str()`/`repr()`,
  `print()` output routing, and the checks on metadata fields given by a host.

`app/` holds the parts that are not verified: serde copies of the boundary types, writing
to standard output, and the Python bindings.
