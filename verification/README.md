# codex_sidebar

Verified logic of the Codex terminal UI's sidebar and of generated thread titles.

- `src/` is the verified library:
  - `text` — character-level string operations (`trim`, `lines`, `split`, `find`,
    ordering of strings, decimal digits) with their specifications;
  - `thread_title` — choosing the history a title is generated from, folding the
    streamed reply, cleaning the generated title and deciding whether to record it;
  - `history` — conversation items and the recognition of injected context;
  - `modified_files` — the sidebar's modified files, built from `git diff --numstat`
    and `git ls-files --others` output;
  - `layout`, `sidebar`, `sidebar_mode` — when the sidebar shows, where it and the main
    area go, what it lists, when its files are refreshed, and when the app enters or
    leaves sidebar mode;
  - `version` — the CLI version shown in the UI.
- `app/` runs git, talks to the model service, draws with ratatui and holds the
  process-wide state, doing what the library decides.
- `tests/` exercise the library on concrete values.
