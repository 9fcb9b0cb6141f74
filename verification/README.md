# Tulipix

The logic of a desktop media application, proved with Verus.

- `src/` is the library. Its functions carry contracts, and these are proved.
  `outside.rs` holds the calls into other crates and the standard library. What is
  claimed of those is trusted; of the clock nothing is claimed.
  - `status` — what the status page says of each section, and what its server allows.
  - `sync` — account mode: tokens, codes, invitations, the change log and its watermark.
  - `tools` — the catalogue of tools, their forms, and how a job runs.
  - `transfer` — the sharing page, its QR code, its rates and its history.
  - `videos` — the shelf, live television, and the two streaming tabs.
  - `text`, `ascii`, `find`, `order` — strings and sorting.
  - `double`, `single` — IEEE 754 arithmetic on integers, rounded as hardware rounds.
- `app/` is what surrounds it: databases, sockets, processes, files and the window.
  A section of the library decides; the file of the same name there carries it out.
- `tests/` runs the library on values.

Properties that relate several functions are the public proof functions whose names
begin with `law_`.
