# hux_core

The engine core of the hux input method (the tiger-code sentence scheme for fcitx5),
written in Verus: the functions in `src/` carry contracts that Verus proves, except the
small trusted wrappers around outside calls (marked `#[verifier::external_body]`),
whose contracts Verus believes without proof.

- `src/` — the verified library: key events and their names, the session context and its
  composition, the host key chain (selector, navigator, punctuator, editor), configuration
  roles, settings, the option store with its saved document, the sentence state kept in
  the context's properties, the automatic commit of an empty code, the preedit and menu
  sent to the platform, the punctuation table, the learning key format and correction
  events, the completion search over the code dictionary, the pinyin index with its
  syllable graph, and the character lookup rows.
- `app/` — the platform side: the C layout of the ABI records, reading assets and the
  option store file from disk, and time-stamped learning events.
- `tests/` — scenarios run against the compiled library.

Hash maps and sets are `hashbrown`'s, gzip data is read with `flate2` and YAML with
`yaml-rust2`; each call into them stands behind one of those trusted wrappers, whose
contract says what the crate's source and documentation show; the same holds for the few
calls into std that vstd does not specify.
The `CommitObserver` trait's contract (each report is appended to the observer's list of
reported texts) is likewise believed of observers written outside `src/`.
