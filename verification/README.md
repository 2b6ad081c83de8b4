# soroban-budget-assert

Budget measurement, assertion and reporting utilities for Soroban contracts,
written in Verus: the library in `src/` carries machine-checked contracts,
and `app/` holds the process, file, network, serialisation and
floating-point code around it.

Modules of the library:

- `bits` — resource masks, bit packing of resource figures, power-of-two
  helpers.
- `tracker` — per-operation cost trackers (a linear and a hash-table backend
  with one shared model) and the backend benchmark.
- `measure`, `bounds`, `assertion`, `checks` — budget checks and their
  messages.
- `limits` — limit values from environment variables and `.env` files.
- `config` — settings with defaults and `budget.json` limits.
- `summary`, `name_map` — averages for display and per-package maxima in a
  name-ordered map.
- `plan`, `derivation` — planning Tier A limits from a Tier B report, and
  their keys.
- `validate`, `json` — cross-checking metrics with the Stellar CLI's output.
- `csv_report` — CSV rendering of cost reports.
- `markdown`, `output`, `urls`, `filters`, `transport`, `errors`, `text` —
  rendering, parsing and small helpers.
