# northship

A small to-do assistant. It reads chat commands such as

    TODO go to the grocery store DEADLINE 2017-08-19 SCHEDULED 2017-08-18 14:30
    AGENDA

stores the to-dos, and shows them as a table.

- `src/` is the library, verified with Verus: the command grammar
  (`grammar.rs` states it, `parsers.rs` implements it), dates and their text
  (`datetime.rs`, with chrono behind small trusted wrappers), the agenda table
  (`agenda.rs`), the records of the store (`models.rs`), what the assistant does
  about a message (`bot.rs`), and properties of the whole (`laws.rs`).
- `app/` is the program around it: the terminal loop, the Matrix loop, and the
  SQLite store (diesel).
- `tests/` runs the library on concrete inputs.
