# windows_tool

Helpers for Windows tooling around Steam, Apex Legends, EA Desktop, PUBG,
`netsh` port proxies and the registry, written in Verus: every decision the
library takes is stated as a `requires`/`ensures` contract and proved.

- `src/` — the verified library: VDF parsing, writing and path edits; Apex
  configuration documents and their encodings; Steam launch options,
  languages, library folders and users; EA Desktop INI files, log scanning
  and the avatar and persona found in its verbose logs; port-proxy command
  lines and the parsing of `netsh` listings; registry command builders; the
  human-readable byte-size text; text, number and path primitives they share.
- `tests/` — tests on concrete values.
- `app/` — the I/O around the library (processes, files, registry, process
  token); it performs what the library decides.

VDF objects are `indexmap::IndexMap`s, held behind a small set of wrappers.

Laws proved in `src/` include: parsing the text the VDF writer produces gives
every object back whose keys hold no quote or backslash, and a VDF text read,
written and read again gives the same tree; a VDF read right after a write at the same path gives the value
written; parsed VDF trees hold no key twice in an object, and inserts and
writes keep it so; Apex configuration reads after `set` and `remove`; an Apex
file whose lines are kept as written is written back unchanged; `insert` on an
Apex document is `set`; text saved as UTF-8 or as UTF-16 LE reads back as the
same text, without its NULs; Steam launch options read back after a write, also
through the written `localconfig.vdf` text when its keys hold no quote or
backslash; EA launch options read back after a write; EA users come in id
order, and distinct INI files give distinct user ids; the PUBG intro-movie
switch leaves exactly one movie folder, and a repeat call does nothing.
