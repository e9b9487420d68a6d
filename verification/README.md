# compactd

`compactd` reduces the context bloat of LLM agent sessions. It removes duplicate
tool outputs, collapses repeated requests to go on, and archives old turns.

The library is written in Verus: what each function does is stated in its
contract and proved, and the laws of the library as a whole are proof functions
named `law_...`.

| Module | What it holds |
|--------|---------------|
| `model`, `strategy` | Sessions, turns and tool calls; what every strategy reports |
| `dedup`, `collapse`, `archive` | The three strategies |
| `compactor` | The strategies one after the other |
| `parse` | The JSON documents of a session text |
| `files`, `scanner` | Which files hold sessions; the scan of a directory as a state machine |
| `store` | What is written to the database, and what is made of the rows that are read |
| `config`, `paths` | Defaults, file and environment; paths and the user's directories |
| `api` | What the REST API and the command line answer |
| `text`, `time`, `digest` | Characters, moments, hashes and identifiers |
| `laws`, `parse_laws`, `scan_laws` | Laws of compaction, of session texts and of scans |

A scan knows a file again by its fingerprint, the length and the hash of its text.
It is kept for each file, by its path: files that are new or have changed are
imported, and no others, also where several of them have the same name in different
directories.

`app/` is the daemon around the library: the command line, the REST server, the
SQLite database and the file watcher.

Hashes come from `sha2` and `hex`, moments from `chrono`, identifiers from `uuid`
and the user's directories from `dirs`. The functions that call them are marked
`external_body`, and the comment above each says what is taken on trust.
