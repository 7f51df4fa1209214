# office_document

The product-owned core of a document editor, written in Verus: the functions in `src/` carry
`requires`/`ensures` contracts that Verus proves, except a few small wrappers around standard
library calls (string formatting, UTF-8 checking, stream reads and writes, allocation), whose
contracts are trusted and state only what the standard library documents.

## Layout

- `src/` — the verified library
  - `text`, `bytes`: UTF-8 and little-endian facts, decimal and hexadecimal rendering
  - `protocol`, `engine`, `mock_engine`: wire-safe edit transactions and the engine boundary
  - `session`, `app_core`: authority generations, revision-stamped observations, edit intent
  - `reconciliation`, `anchors`, `snapshot`: durable anchors, their rebinding and the
    bounded snapshot artifact (encode, decode, round trip)
  - `transport`, `worker`: control-frame framing over byte streams and the worker loop
  - `extension`, `registry`, `feature_host`: feature manifests, deterministic resolution
    (closure, conflicts, services, topological activation order) and the bundled host
  - `render_pool`, `backed_pool`, `file_backing`: bounded render-buffer leases with
    generation checks, byte backings, and per-generation external files
  - `ui_qualification`: the qualification tile, its checksum and the snapshot-stress verdict
- `tests/` — behaviour tests of the library
- `app/` — the command-line shell: the worker process, the desktop demo, the file I/O of the
  external backing and the file writer
