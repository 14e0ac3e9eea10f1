# minidb

The front end and storage core of a small database, verified with Verus.

- `src/frontend/lexer.rs`: the SQL lexer. Its position is a byte offset that always starts
  a character; its contracts describe, character by character, what each step reads and where
  it leaves the position, and its laws say that it loses nothing but whitespace, that keywords
  are found in any case, and that any run of whitespace can stand for any other.
- `src/frontend/token.rs`: token kinds, tokens, and the simpler word tokenizer.
- `src/frontend/keywords.rs`: the keyword and operator tables and their lookup.
- `src/frontend/text.rs`: UTF-8 widths, byte offsets and slicing, the character at a byte
  offset, Unicode's White_Space property, and the calls into std's Unicode tables
  (alphabetic, upper case).
- `src/frontend/ast.rs`: syntax tree nodes that hold no floating-point value.
- `src/storage/buffer.rs`: the buffer pool's bookkeeping: page table, pins, dirty flags and
  the CLOCK choice of a frame to reuse, with its laws.
- `src/storage/disk.rs`: page layout types and page offsets.
- `app/`: the file-backed disk manager, the thread-safe buffer manager and its page guards,
  which drive the bookkeeping, and the syntax tree nodes that hold numbers.
