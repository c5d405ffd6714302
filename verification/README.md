# credgen

A credential generator: passwords drawn from configurable character classes
(with at least one character of each enabled class, and an option to leave
out look-alike characters), Diceware-style passphrases and memorable
`AdjectiveNoun` usernames, with optional mixing of a Random.org seed into the
operating system's randomness.

- `src/` is the verified library: character classes, the generators, word-list
  parsing, reading a Random.org reply and mixing seeds, and the decisions of
  the user interface (labels, masking, debounced regeneration).
- `app/` is the egui desktop program around it: the window, the worker
  thread, the HTTP request, the embedded word lists (`assets/adjectives` and
  `assets/nouns`, one word per line) and the floating-point entropy estimates.
- `tests/` exercises the library with the real outside crates.
