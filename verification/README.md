# rhd

A command-line client for a PostgreSQL database of recon results: `write`
imports URLs (with their HTTP status codes) into a table per target, `read`
lists targets and filters their entries by host and status code, and `mod`
deletes filtered entries or a whole target.

- `src/` is the library, checked by Verus: the SQL text of queries
  (`helpers`), the reading of recon output into a table of URLs (`urls`,
  with URL parsing by the `url` crate), the connection settings
  (`configuration`), the decisions of each command (`db_logic`), and the
  character-level text operations they share (`text`).
- `app/` is the program around it: argument parsing (clap), the
  configuration file (config, serde), the database connection (postgres),
  the terminal and the grid output (cli-grid).
- `tests/` runs the library on concrete inputs.
