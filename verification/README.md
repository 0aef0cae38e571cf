# continue-transcripts

Converts chat sessions that continue.dev saves as JSON into self-contained HTML pages, with
an index that links them. The conversion is a library whose functions are specified and
proved in Verus; the command line program around it reads and writes the files.

## Layout

- `src/` is the verified library.
  - `session` holds the sessions and what is extracted from them: the model, the system
    prompt, the names of the tools.
  - `tools`, `descriptions`, `parameters` and `tools_reference` describe the tools.
  - `message`, `tool_args`, `markdown`, `highlight` and `ansi` render messages.
  - `transcript`, `page` and `index` render whole pages; `assets` holds styles and scripts.
  - `dates`, `selection`, `filename` and `run` decide which sessions are converted, under
    which names they are written, and what is reported.
  - `text`, `html`, `json`, `paths` and `tokens` are what the others are built from.
- `app/` is the program: arguments, files, threads, and the JSON form of a session.
- `tests/` holds the tests.

## What is trusted

Calls into other crates stand behind small functions whose contracts are believed, each
next to the code that needs it: `html_escape` (escaping), `pulldown_cmark` (Markdown),
`syntect` (syntax highlighting), `serde_json` (JSON), `chrono` (dates), and a few functions
of the standard library. What such a call returns is stated, or it is given a name that the
contracts of its callers use.

## Laws

Public proof functions whose names begin with `law_` state what holds of the library as a
whole: that every message is shown once, that names of files are unique and sort by date,
that escaped text adds no markup, and others.
