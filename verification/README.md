# yantrikdb_explorer

The logic of a read-only terminal explorer for one YantrikDB store, and of the
inspection reads behind it, verified with Verus.

- `src/` is the library. Verus proves the contract of every function in it but
  for the trusted items named below.
  - `inspect`: the claims a memory backs with their status, its revision
    history, its linked entities.
  - `inspector`, `draw`, `screen`: what is shown, line by line.
  - `explorer`: the state of the explorer, the reads it asks for, and how keys
    and answers change it.
  - `namespaces`: the list of namespaces with their live memory counts.
  - `snapshot`: names, creation and removal of the private directory that owns
    a snapshot copy.
  - `lifecycle`: how snapshots are opened, replaced and closed, step by step.
  - `embedder`: whether a store can be searched.
  - `calendar`, `double`, `quotient`, `fixed`, `text`, `order`, `json`: days and
    clock times from unix seconds, doubles by their bit patterns and their
    decimal notation, text, orders, JSON values.
- `tests/` runs the library on concrete values.
- `app/` is the program around it: arguments, the terminal, SQLite, files, the
  engine, and the reads for Python. It makes the reads that the library asks
  for and hands back what came of them. It is built within the YantrikDB
  workspace, which provides the engine crate `yantrikdb`.

## What is trusted

`json` calls `serde_json` (reading a text, writing a value, comparing with null
and with the empty object), `snapshot` draws a number with `rand::random`, and
`text` states what `String::push` does. Each of these items says what it claims.

## What holds of the whole

Public proof functions whose names start with `law_` state what relates several
functions: that reads keep to the namespace in scope and reinforce nothing, that
a refresh keeps the scope by its name, that search needs a ready model, that the
inspector follows the selection, that snapshot directories of different draws
have different names, and so on.
