# single_file_ladder

A ladder is a set of renditions of one asset, each in a fragmented BMFF file of its own, that are
signed together with C2PA: every file carries the same manifest, and the manifest's hash binding
holds one Merkle map for each rendition.

This crate holds the acceptance rules for such ladders, verified with Verus.

- `src/` is the library. It prepares inputs (`builder`, `naming`, `boxes::shortened`, `dynamic`),
  damages files and bindings in exactly known ways (`boxes`, `merkle`), and judges what came of it
  (`ladder`, `index`, `merkle`, `instance`, `outcome`, `admission`, `media`). `cbor` models the
  encoding that endorsements are written in. `outside` holds what is trusted of `serde_bytes` and
  `uuid`.
- `app/` runs the rules as scenarios, with files and processes, against a host that signs and
  reads ladders.
- `tests/` runs the library on small hand-made files.
