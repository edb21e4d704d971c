# qir_formatter

Renders the shots of a quantum job in the QIR output specification's
"labeled" schema, verified with Verus.

- `src/value.rs`: shot values (booleans, 64-bit integers, floating-point
  numbers held as their bit pattern and display) and their text.
- `src/text.rs`: character-level helpers (comparison, prefix, split at the
  first occurrence of a character, decimal rendering of integers).
- `src/labeled_formatter.rs`: the formatter; every method's contract states
  the exact text it appends and how the malformed-value count changes, over
  the spec functions defined there.
- `src/laws.rs`: properties of the output that hold for every input.
- `src/lines.rs`: the output as a sequence of lines, and the shape of those lines.
- `app/`: the Python extension module (pyo3), which converts Python values
  into the library's types and forwards warnings to Python's `logging`;
  `app/logged.rs` gives Rust callers the writing methods with a `log`
  warning for each malformed value.
