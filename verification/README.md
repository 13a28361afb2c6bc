# autocheck

A server for the Model Context Protocol that gives a coding agent tools to
read, write and compare files and to run shell commands. After a file of a
Rust, Go, Python, JavaScript or TypeScript project was written, the project is
checked, and the diagnostics are part of the answer.

- `src/` is the logic, verified with Verus. It touches neither files nor
  programs: where a request needs that, the library says what is to be done
  next, and is told what came of it.
- `app/` is the server around it: files, processes, the protocol, JSON.
- `tests/` runs the library on concrete values.

| Module | What it holds |
|---|---|
| `text`, `number`, `lines`, `clip` | characters, numbers, lines, bytes |
| `paths`, `order` | the components of a path, the order of raw names |
| `edit`, `write` | replacing and inserting text, the course of a write |
| `tree`, `search`, `ctags`, `read` | directory trees, searches, symbols, the course of a read |
| `diagnostics`, `languages` | what compilers and linters say, and the checks themselves |
| `batch` | several reads or writes in one request |
| `diff` | the difference of two files |
| `utils` | the root of a project, the search path, shell commands |
| `master` | the turns of a language model that uses the tools |

With `--master <key>`, or a key in `DEEPSEEK_API_KEY`, the server also offers
`master_read` and `master_write`, which hand a goal in plain language to a
model.
