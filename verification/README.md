# gw-synth-flash-mcp

An unofficial Model Context Protocol server for the Gowin EDA command line
tools on Windows 11 (`gw_sh`, `programmer_cli`), with its logic verified in
Verus.

- `src/` — the verified library:
  - `text.rs`: whitespace, trimming, searching and UTF-8 byte lengths over
    `Seq<char>`; the trusted calls into `str::to_lowercase` and `String::push`.
  - `cable.rs`: cable names (`strip_cable_suffix`) and the parser of
    `programmer_cli` output (`parse_cable_entries`, `parse_cable_names`), with
    its steps after lower-casing available on given lower-cased text.
  - `paths.rs`: Windows path joins and request-path resolution, the install
    layout (`gowin_paths`), file stems, log names, the choice of the project
    root and the markers (`run_gowin.tcl`, `*.gprj`) that detection looks for.
    Joins are stated for bases that are not verbatim (`\\?\`) and for verbatim
    bases written plainly, which Windows' normalisation leaves unchanged.
  - `env.rs`: the environment of `gw_sh` and a replace-on-insert variable map.
  - `scan.rs`: the argument lists of `list_cables` and the scan that tries them.
  - `flash.rs`: request validation, argument variants and the programming
    session of `program_fs`; the operation index (`2` SRAM, `5` embedded
    flash) goes to `programmer_cli` as `-r`.
  - `tcl.rs`, `error.rs`, `process.rs`: request plans, refusals, exit codes.
- `app/` — the server itself: stdio transport, tools, processes, files, logs.
- `tests/` — tests of the library.
