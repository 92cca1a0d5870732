# vela

Vela turns a storage device into a small personal cloud: `tvela scan` lists
block devices, `tvela mount` mounts one under `/mnt/` (read-only with `-m r`),
and `tvela serve` serves a mounted directory over HTTP on port 9000, with an
access token kept in an HttpOnly cookie, byte-range streaming and uploads.

Layout:

- `src/` is the verified library (Verus). It takes every decision of the tool:
  path joining and the confinement of requests to the served root, first by
  the text of a path and then by what the file system resolves it to
  (`paths`, `server`, `upload`), sessions and authentication (`server`), `Range` headers (`range`),
  the file and page replies (`files`, `reply`), uploads (`upload`), directory
  listings and their order (`listing`, `order`), the announced LAN addresses
  (`network`), the device table, mount commands and sizes (`device`,
  `numbers`), and the command line (`cli`).
- `app/` is the program around it: argument parsing, the axum routes, files on
  disk, the system's device and mount tables, and running `mount`/`umount`.
- `tests/` runs the library on concrete values.
