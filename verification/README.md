# Easy Read

The logic of a portable desktop e-reader for EPUB, plain-text and Markdown
books, written in Verus. The library's functions carry contracts that Verus
proves, except the small wrappers marked `#[verifier::external_body]`, each of
which makes one call into std or an outside crate (zip, roxmltree, ammonia,
pulldown-cmark, encoding_rs, chardetng, base64, percent-encoding): their
contracts, stated in their doc comments, are trusted rather than proved.

- `src/` is the verified library.
  - `models/` — books, chapters and the adapter errors.
  - `adapters/txt.rs` — decoding text files (byte-order marks, UTF-8, detected
    legacy encodings), line endings, splitting into chapters, Markdown.
  - `adapters/epub/` — the archive with its size caps, package and container
    documents, spine, table of contents (EPUB 3 nav and EPUB 2 NCX), chapter
    titles, path resolution and inline images.
  - `sanitize.rs` — which attributes of book HTML survive sanitizing.
  - `state.rs` — the persisted reading state, its well-formedness, the search
    index and the start-up decision on the state file.
  - `commands/` — the reader's commands as transitions of the state:
    bookmarks, highlights, quotes, progress, preferences, history, search.
  - `text.rs` — characters, trimming, splitting, decimal numbers, UTF-8 lengths.
- `tests/` runs the library on concrete books, texts and states.
- `app/` is the desktop shell: the Tauri commands, the state file on disk and
  the data directory. It converts between the library's types and their
  serializable copies, and keeps floating-point values out of the library.

Public proof functions named `law_*` state the properties that hold across
calls, such as toggling a bookmark twice giving back the bookmarks, or a
second identical progress update changing nothing.
