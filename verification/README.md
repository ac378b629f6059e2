# agent_spec

Contract-driven specification tooling, verified with Verus: the spec model,
the plan context an implementer is given, the report renderers and the
code-quality limits.

- `src/` is the verified library.
  - `text` — a model of the string functions the library uses (`trim`,
    `find`, `split`, `lines`, …) with executable counterparts.
  - `spec_core` — the parsed spec (`ast`) and the verification and lint
    results (`report`).
  - `spec_gateway` — the task contract prompt (`brief`) and the plan context
    (`plan`): allowed change patterns, glob matching, gitignore rules, file
    summaries, the codebase context and the task sketch, a layering of the
    scenarios by their dependencies, with its laws.
  - `spec_report` — text, Markdown and compact renderings of verification,
    lint, explain and cost reports, and the status report.
  - `spec_verify::complexity` — the line-ratio constraints and `git diff
    --numstat` totals.
- `app/` holds what the library leaves to its caller: walking and reading
  the file system, running git, the floating-point line ratio, and the JSON
  formats (serialisable copies of the library's types).
- `tests/` runs the library on concrete cases.
