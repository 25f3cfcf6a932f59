# gitx

The core of GitX, a desktop tool that browses a Git repository and lets an AI assistant
answer questions about branches, commits and diffs. The library is written in Verus: each
function carries a contract, and Verus proves the code against it.

## Layout

- `src/` — the verified library
  - `model.rs` — the data exchanged with the frontend
  - `text.rs` — character-level helpers (decimal text, trimming, truncation, parsing)
  - `git.rs` — the repository state and every Git query, decided over what the repository
    reader found (commit listings, diffs and patch line counts, branch lists, file history)
  - `intent.rs` — relative time ranges such as `3d`
  - `json.rs` — the JSON texts read and written through `serde_json`, including the reply
    bodies of the AI service
  - `tools.rs` — the agent's Git tools: the table offered to the model, planning a call and
    the text handed back
  - `ai.rs` — prompts, request texts, settings and the classification of AI errors
  - `sse.rs` — the decoder of streamed replies, with its chunking and end-of-stream laws
  - `agent.rs` — the agent loop as a state machine, with its stop, retry and round laws
- `tests/` — tests of the library
- `app/` — the Tauri shell: commands, the git2 reader, HTTP calls and the agent driver
