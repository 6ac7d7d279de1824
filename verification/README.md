# glow

A Markdown reader for the terminal and the browser: it renders a document to the
terminal, browses a folder of Markdown in a terminal UI, serves the folder as a
read-only documentation site, and can share that site through a Cloudflare Quick Tunnel.

## Layout

- `src/` is the library, verified with Verus: the document index and its order, front
  matter and titles, the terminal renderer (wrapping, code and diagram cards), the HTML
  renderer's link rewriting and slot filling, the terminal browser's state machine, the
  site's routes, asset allowlist and pages, the tunnel's startup decisions, settings and
  command-line decisions. `src/calls.rs` holds the trusted items: the calls into outside
  crates and into std functions that vstd does not specify, with the contracts they are
  taken at.
- `tests/` runs the library on concrete inputs.
- `app/` is the program around it: argument parsing, files, processes, the network, the
  terminal and the HTTP server.
