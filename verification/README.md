# savhub

The logic of the savhub skill registry — a catalog of AI skills gathered from git
repositories into flocks — written in Verus, with each function's behaviour stated in
its contract and proved.

## Layout

- `src/` — the verified library.
  - Text and data: `text` (string operations and their models), `order` (the order of
    strings, sorted insertion), `json` (JSON values), `encoding` (hexadecimal, UTF-8,
    SHA-256).
  - Repositories: `git_url` (normalising and splitting git URLs), `urls`, `git_ops`
    (the skill walk, changed `SKILL.md` files, slugs, headings, frontmatter, skill
    metadata), `git_commands` (clone, fetch and reset arguments, `git` output),
    `index_rules` (which indexing rule applies to a subdirectory), `custom_selectors`.
  - Importing and jobs: `import_plan` (incremental imports, flock names, bringing
    stored skills in line with an import), `jobs` (accepting index requests,
    dispatching queued jobs, re-indexing), `worker` (the background worker's
    decisions), `bundle` (zip archives of a version's files).
  - The catalog: `model` (the shared types and their text forms), `policy` (who may see
    and change what), `users`, `search` and `repo_search` (ranking and pages), `ai` and
    `llm_eval` (prompts for language models and the reading of their answers).
  - Signing in: `github_auth` (login cookies, return URLs, redirects), `sessions`
    (saved accounts in the browser).
  - The web client: `client`, `location`, `paths`, `shell`.
- `tests/` — tests of the library on concrete values.
- `app/` — the edges around it: `serde` forms of the library's types, YAML and JSON
  parsing, walks of checkouts on disk, running `git`, clock readings, and the few
  computations done in floating point.

Laws that relate several functions are public proof functions named `law_*`.
