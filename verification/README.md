# opz

`opz` runs commands with secrets from 1Password items. It finds items by title or by the remotes of
the working copy, turns their fields into variables, and keeps items, env files, scripts and
repositories in step.

- `src/` is the library: what the program decides and computes, proved with Verus. Every public
  function states what it gives for every input; functions named `law_…` state what holds of
  several of them together.
- `app/` is the program around it: the command line, files, child processes, the desktop SDK and
  the terminal. It asks the library what to do next, does it, and hands back what came of it.
- `tests/` runs the library on concrete values.

The library uses `serde_json`, `regex`, `toml` and `sha2`. What it takes from them is stated where
they are called, in `src/json.rs`, `src/pattern.rs`, `src/plugin_config.rs` and `src/plugin.rs`; what
it takes from the standard library without a specification there is stated in `src/text.rs`.
