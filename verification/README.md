# afkaracode

A terminal coding agent: the user types requests, a model answers and may
call tools that read, create and edit files, list and create directories,
run shell commands, or run tools defined by Lua scripts.

- `src/` is the verified library (Verus): configuration merging, snippet
  replacement, ranged reads, directory listings, the shell tool's argument
  handling, output filters and JSON reports, the XDG directory layout,
  Lua tool definitions, how a Markdown reply is drawn (syntax choice and
  highlighting of code blocks through syntect, tints through colored), the
  diff and highlighted preview of an edit, and the session's decisions
  (exit commands, retries, the system prompt).
- `app/` is the program around it: the model client, the terminal, the file
  system, processes, HTTP for Lua scripts and TOML parsing.
- `tests/` runs the library on concrete inputs.
