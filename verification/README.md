# xedit

A verified library for Bethesda plugin files (ESP/ESM/ESL) and the tools
around them, written in Verus.

- `src/` is the library. Every function carries a contract that Verus
  proves: the plugin format as a specification of well-formed bytes, the
  reader and the surgical writer (with the round-trip law), load-order
  sorting and FormID resolution, conflict and ITM detection, cleaning,
  the "referenced by" index, MO2 profile and virtual file system logic,
  tree, terrain and object LOD data formats, and the packed answers of the
  C interface, and the tree billboard atlas layout. Floating-point values are held as their IEEE-754 bits.
- `tests/` exercises the library on concrete values.
- `app/` is the file-system glue: reading and writing files, walking
  folders, and the floating-point conversions the library leaves to its
  callers.

The outside crates are `flate2` (record decompression) and `crc32fast`
(billboard checksums), called from the library through trusted wrappers,
and `walkdir` (folder walks in `app/`).
