# codex-mimo-adapter

The decision logic of a local adapter that lets Codex subagents talk to the
MiMo Token Plan API, written in Verus and proved against its contracts.

## Layout

- `src/` — the verified library.
  - `text`, `numbers`, `strmap`: character helpers, integer parsing with the
    rules of `str::parse`, and a string-keyed map with a `Map` view.
  - `config`: settings resolved from command line, project env file, process
    environment and defaults, with their validation.
  - `envfile`, `project`: the project env file format, the project layout and
    project discovery (ancestors, Codex process list and session files).
  - `routing`: routed model names `mimo_adapter/<project_key>/mimo/<model>`.
  - `runtime`: loaded projects, bearer-token authorization, request admission
    and registry refresh.
  - `responses`: how failures of the Responses endpoint are answered.
  - `cli`: the subcommands and their arguments.
- `tests/` — tests run against the compiled library.
- `app/` — the command-line program: argument parsing, environment, file
  system and network around the library.
