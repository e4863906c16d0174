# inbox_pipeline

Two agent tools for an inbox-processing workflow, with their decision logic
verified in Verus.

- `file_stage` moves a file through the stages of the inbox:
  `inbox/<source_type>/<file>` is claimed into `inbox/processing/...`, and from
  there completed into `inbox/processed/...` or failed into `inbox/failed/...`,
  optionally with a `.sidecar.json` or `.error.json` note.
- `inbox_scan` lists the files that wait in the source-type directories of the
  inbox, skipping the stage directories, hidden files and notes.

Layout:

- `src/` — the verified library. `file_stage.rs` holds path parsing, component
  safety and the staging run; `inbox_scan.rs` holds source-directory selection,
  entry filtering and the scan run; `text.rs` holds string helpers and the
  lemmas about splitting on `'/'`; `json.rs` the JSON texts, rendered by
  serde_json behind two trusted wrappers; `tool_result.rs` the result type.
  Each call is a run: `begin` starts it, and `step` takes the answer to the
  last command and decides the next command or the result.
- `app/` — async plumbing: JSON arguments, the security policy, and the
  file-system work (with tokio) that the runs ask for.
- `tests/` — tests of the library, including runs against an in-memory inbox.
