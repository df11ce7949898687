# echofs

An HTTP file server with directory browsing, media preview, folder download
as ZIP, and WebDAV.

- `src/` is the library, verified with Verus: range requests, Basic
  authentication, WebDAV request handling (methods, headers, destinations,
  path normalization, the guards on COPY/MOVE/DELETE/MKCOL, the XML bodies),
  media types and icons, the rules of folder archives, the address list,
  the control panel's form validation, log buffer and QR picture, and the
  command line's validation.
- `app/` is the `echofs` program: argument parsing, the axum server, the
  filesystem and network work, the throttled streaming of bodies and the
  floating-point formatting of sizes and speeds. It takes its answers to
  requests, the verdicts on paths, the listing order and the archive rules
  from the library.
- `tests/` exercises the library.
