# nami_core

The core of the nami browser: declarative profiles (find-in-page, outlines, gestures,
high contrast, offline, permissions, passwords, omnibox, …), the document tree with its
S-expression form, Markdown lowering, extension signatures and the small network helpers,
written in Verus and verified.

## Layout

- `src/` — the library. Every module states its behaviour in `requires` / `ensures`
  contracts over spec functions and views, and Verus proves the code against them.
  - `registry.rs`, `sorted.rs`, `text.rs` — shared pieces: name-keyed registries with
    upsert semantics, sorted vectors, and character-level text functions with their specs.
  - `dom/` — the document tree and its plain-value view.
  - `lisp/` — the S-expression reader and writer, with the round-trip law.
  - `find/` — find-in-page profiles and the search over a document.
  - `outline/`, `markdown/` — outlines and Markdown built from a document.
  - one module per profile kind for the rest.
  - Calls into outside crates (`url`, `regex`, `blake3`, `base64`, `ed25519-dalek`,
    `serde_json`) and a few `std` functions stand behind small `#[verifier::external_body]`
    wrappers whose doc comments say what their contracts claim.
- `tests/` — ordinary Rust tests of the library.
- `app/` — what Verus does not see: serde copies of library types, I/O,
  floating-point rendering, and the JavaScript micro-parser whose numbers are `f64`.
