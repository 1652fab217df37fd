# slopwrap

Runs a command inside a bubblewrap sandbox whose view of the repository is an
overlayfs mount: everything the command writes lands in an upper directory.
Afterwards the changes are summarised and shown as diffs, and the user applies,
discards or keeps them.

## Layout

- `src/` is the library, verified with Verus:
  - `paths.rs`: the component view of paths (`Path::components`,
    `starts_with`, `join`, the `Ord` of paths);
  - `sandbox.rs`: the bubblewrap argument list, given the configuration and
    what the host offers; `sandbox_laws.rs` proves its safety properties
    (credentials never mounted, minimal environment, network switch, the
    command after `--`);
  - `overlay.rs`: how the entries of the upper directory become added,
    modified and deleted paths, how whiteouts and opaque directories are
    recognised, and the file operations that apply the upper directory;
  - `diff.rs`: the change summary, its text, and the `diff` runs;
  - `session.rs`: the overlay layout, the prompt's answer, agent profiles,
    and the course of a session from the command's exit to the decision.
- `app/` is the program around it: argument parsing, the directory walk,
  `stat` and extended-attribute reads, running `bwrap` and `diff`, and the
  file operations themselves.
- `tests/` exercises the library on concrete values.
