# csb

Browse, preview and delete the sessions that an AI coding agent keeps under
its config directory (`projects/<slug>/<id>.jsonl`), from a terminal UI or
from scriptable subcommands.

## Layout

- `src/` is the library, written in Verus: every function carries a
  `requires`/`ensures` contract that Verus proves. It holds the session
  scanner (byte-level, over the raw JSONL), title derivation, the index and
  its cache, transcript parsing, delete planning and its guards, the CLI's
  selection and report text, the update throttle, and the terminal browser
  as a state machine (key in, next state and an action out), and the
  desktop browser's selection (clicks with ctrl and shift, all/none, and
  what a delete would take).
- `app/` is the program around it: argument parsing, the file system,
  the recycle bin, the network check for releases, the terminal, and serde
  copies of the library's cached types.
- `tests/` exercises the library on concrete values.

Calls into outside crates (chrono, memchr, serde_json, self_update) sit
behind small trusted wrappers whose doc comments say what their contracts
claim of the outside code.

## Running it

- The config directory comes from `--config-dir` or `CSB_CONFIG_DIR`; there
  is no default location.
- `csb update` and the release check read the GitHub repository
  (`owner/name`) from `CSB_RELEASE_REPO`; without it they fail.
- The desktop GUI is not part of this build: `csb` with no subcommand, and
  `csb gui`, say so and exit with an error. `csb tui` is the interactive
  browser.
- A transcript of 4 GiB or more is reported as too large to index, so that
  every count the scan keeps fits its 32-bit field.
- Paths follow the platform's rules: on Windows `\` separates components as
  well as `/`, and joined paths use `\`.
