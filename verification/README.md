# did_i_break_it

Checks the reverse dependencies of a crate published on crates.io against a
local copy of that crate: each reverse dependency whose version requirement the
local version meets is downloaded, built as published, then built again with
its dependency on the crate pointed at the local copy.

- `src/` is the verified library: the crates.io answer model (`json`,
  `reverse_dependency`), the paging and version filtering
  (`reverse_dependencies`), the local crate read from its manifest
  (`local_crate`), the steps taken for one reverse dependency (`pipeline`) and
  the counts of how they ended (`statistics`).
- `app/` is the command-line program around it: argument parsing, HTTP, the
  file system, the external commands, threads and the report.
