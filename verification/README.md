# sensitive_masker

Local masking of sensitive values (phone numbers, passwords, IP addresses, ...) in text such as
logs and console output, before the text is pasted anywhere else. Rules are grouped in
profiles; profiles are stored encrypted and can be exported and imported under a passphrase.

The library under `src/` is verified with Verus: every public function states what it returns
in its `ensures`, and the laws that span several functions are public proof functions
(`law_*`).

- `models`, `matcher`, `offsets`, `cluster`, `masker`: rules and profiles, matching a rule in a
  text, merging overlapping matches into clusters, and masking with stable replacement values.
- `env_import`: candidate rules read from a `.env` file.
- `crypto`, `export`, `bulk`, `import_plan`, `pending`: the encrypted store's records, passphrase
  exports, and the planning of imports (names, size limits, activation, pending previews).
- `mask_cli`, `decode`, `paths`: the rules of the `masker` command line.
- `mcp`: the decisions of the `run_masked_command` tool (arguments, limits, the collection of
  output, the answer).
- `gui`, `gui_import`, `tray`: the decisions of the desktop application.
- `wipe`: the judgements of the allocator that checks that secrets are wiped before being freed.

`app/` is the `masker` command line around the library: arguments, files, the terminal, the
SQLite store and the key file. `tests/` exercises the library through its public interface.
