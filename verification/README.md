# rusty_expressions: character encodings

The encoding layer of an Oniguruma-compatible regular-expression engine,
verified with Verus: for each built-in encoding it measures a character,
reads its code, writes a code back, folds case, recognises a newline and
moves a position back to a character boundary.

- `src/encoding.rs`: the `Encoding` value and its methods.
- `src/model.rs`: the mathematical model each method's contract refers to.
- `src/utf.rs`: UTF-8, UTF-16 and UTF-32 reading and writing.
- `src/lead.rs`: lead-byte length tables.
- `src/mbc.rs`: raw multi-byte codes and the GB18030 length rule.
- `src/cjk.rs`: Shift_JIS, EUC-JP, Big5, GB18030 and EUC-CN, transcoded
  through the Encoding Standard indexes that `encoding_rs` carries.
- `src/laws.rs`: properties proved across operations (write-then-read,
  length bounds, newline, case folding, boundary adjustment).
- `src/error.rs`: the error type.
