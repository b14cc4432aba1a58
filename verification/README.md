# databased

A small in-memory store of workspaces, databases and tables, driven by a
line-oriented command language (`create workspace w`, `set db d`,
`create table t a:b string:int`, `insert record x:1`, `print orderby a`,
`groupby a sum b`, `export xml`, `import as xml t.xml`, ...), verified with
Verus.

Layout:

- `src/` is the verified library.
  - `text.rs`: splitting, trimming, replacing, lines, decimal integers and
    the syntax of `FromStr` for integers, booleans, characters and floats.
  - `notice.rs`: status codes, how each is worded, and the logger.
  - `output.rs`: what a command shows and what it asks its caller to do.
  - `table.rs`, `store.rs`: tables, databases and workspaces, each holding
    its parts under distinct names.
  - `order.rs`: stable ordering of rows, grouping by key, aggregates.
  - `exchange.rs`: reading CSV files and XML exports, writing JSON, XML
    and CSV exports.
  - `command.rs`: the command a line of input gives.
  - `session.rs`: what each command does to a session.
  - `laws.rs`: properties that span several operations.
  - `readback.rs`: an XML export read back gives the table again.
  - `selection.rs`: what is active in a session stays consistent.
  - `outside.rs`: the trusted calls into `rand`, `chrono` and std.
- `app/main.rs` is the terminal: it reads lines, prints in colour, and does
  the file reading and writing the library asks for.
- `tests/` runs the library on concrete sessions and values.
