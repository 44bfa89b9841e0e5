# miryam

A desktop mascot for Wayland (GTK 4, layer shell) that speaks phrases from a
conditional dictionary, keeps notes in Inkdrop, chats through a local
language-model CLI, and comes with a PDF reader that keeps highlights,
memos and tags beside each book.

## Layout

- `src/` — the library, verified with Verus: the phrase dictionary and its
  conditions, the timer and control syntax, Inkdrop requests and replies,
  the link list, the chat session and its note, configuration checks, and
  the reader's logic (sidecar edits, tags, outline rows, search chunks,
  presentation state, render cache, shelf order, exports and digests).
  Every public function states what it returns in its contract; laws that
  span several calls are public proof functions (`lemma_*`).
- `tests/` — tests of the library on concrete values.
- `app/` — the GTK programs around the library: the mascot window and its
  actions (`main.rs`), settings files, processes and files (`services.rs`,
  `llm.rs`, `settings.rs`), and the reader's windows (`reader/`). Run under
  the name `miryam-reader`, the program opens the reader.

The sidecar of a PDF is `<folder>/.miryam/<file name>.json`; settings are
read from `~/.config/miryam/phrases.toml` and links from
`~/.config/miryam/links.toml`.
