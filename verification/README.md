# fwupdate

A small web service that installs firmware bundles with RAUC, as a verified
library and a thin program around it.

- `src/` is the library, verified with Verus: log record tagging and
  decoration (`logger`), settings and command-line options (`statics`), the
  command lines for the system tools and what their outcomes mean, file-name
  sanitising and status parsing (`sysinfo`), the firmware index and upload
  decisions (`fwupdate`), and the character-sequence utilities they share
  (`text`).
- `app/` is the program: the HTTP server, logging backend, process and file
  access, template rendering.
- `tests/` runs the library on concrete values.

Logging is configured with `MY_LOG_LEVEL` and `MY_LOG_STYLE`; `-c <file>`
reads settings from a configuration file and `-p <port>` sets the port.
