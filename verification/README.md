# devguard

Checks the `.env` file of a project: reads its variables, reports malformed
lines, checks each variable against a priority-ordered set of rules (secrets,
ports, URLs, hosts, IDs, `NODE_ENV`, placeholder values, insecure settings, and
custom rules), reports the keys of `.env.example` that `.env` lacks, and scans
source trees for secrets written into files.

- `src/` — the library, verified with Verus: `text` (string primitives),
  `env_map`, `parser`, `missing`, `validator`, `scanner`, `error`.
- `app/` — reading files and walking directories, handing their lines to the
  library.
- `tests/` — tests of the library on concrete values.
