# Sprocket

Sprocket installs a Codex adapter into a Git repository and keeps hidden checkpoint
commits of the files it owns, one stream per worktree and branch.

## Layout

- `src/` is the library, verified with Verus: the stream identity, the end-of-turn
  decision, pending episodes, checkpoint messages and their footers, intents and the
  rebuilding of stream state from the hidden ref, session trackers and commit plans, the
  pre-tool-use guard, hook payloads and the merge of `.codex/hooks.json`, the runtime
  file layout, and the readers of Git's output. Public proof functions named `law_*` state
  the properties that hold across calls (for example that a checkpoint message reads back
  as the metadata it was built from, or that installing twice changes nothing).
- `tests/` runs the library on concrete values.
- `app/` is the `sprocket` command: argument handling, Git subprocesses, the runtime files
  (JSON, compressed manifests, logs, the repository lock) and the hook entry points. It asks
  the library for every decision and carries the result out.
