# rotz_link

The decision logic of the `rotz link` command, verified with Verus.

- `src/config.rs` — link types and the settings that linking reads.
- `src/encryption.rs` — the synchronisation direction rule, link and
  encryption configurations, and age encryption/decryption of file content.
- `src/crypto.rs` — the age and `str::trim` calls, with the contracts the
  library relies on.
- `src/capabilities.rs` — canonical dot capabilities, how they are merged and
  how selectors combine them.
- `src/link.rs` — content detection, the link creation state machine, the
  plans for synchronising and linking, orphan detection and the record of
  what is linked.
- `src/paths.rs`, `src/assoc.rs` — path sets and path-keyed maps held in vectors.
- `src/laws.rs` — properties that hold across functions and states.

`app/` holds the filesystem side: it performs the work the library asks for
(copying, linking, reading identity files) and reports back what happened.
