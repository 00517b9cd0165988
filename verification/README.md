# pi_core

The verified core of Pi, a coding agent for the terminal. The library holds the parts of the agent
that decide and compute; every function states in its contract what it returns, and Verus proves
it.

| Module | What it holds |
| --- | --- |
| `extension_index` | the index of extensions: search, install sources, the bundled list, the cache |
| `index` | the codebase index: which files are read, symbols by language, search |
| `session_sqlite` | sessions in a database: the statements that write them, and how they are read |
| `http_client` | requests, recorded requests, response bodies |
| `launch` | from the command line to a mode; input and answers; exports |
| `models` | the list of models: fuzzy matching, token counts, the table |
| `packages` | what the subcommands for packages and settings do and print |
| `flake_classifier` | which test failures are worth another attempt |
| `connectors` | results of hostcalls |
| `canonical` | canonical forms of paths |
| `paths`, `text`, `decimal`, `order`, `time`, `json`, `error` | what the others build on |

A path is a text, together with the platform that it belongs to. On Unix, `/` separates names and
a path that begins with it is absolute. On Windows, `/` and `\` separate, and drives, shares,
devices and verbatim prefixes are told apart; behind a verbatim prefix only `\` separates, and a
path is absolute when it has a prefix and a root. Paths that are not valid Unicode are not covered:
the program hands them over with replacement characters.

Public proof functions whose names begin with `law_` state what holds across functions.

Calls into other crates stand behind small functions marked `external_body`, each with a comment
on what it claims. `tests/` runs the library with those crates linked. `app/` holds the program
around the library: files, databases, the network and the terminal.
