# factorlens

Attribution and investigation of tabular metrics, as a verified library with a
small program around it.

- `src/` is the library. Every function states in its contract what it returns,
  and Verus proves it. Numbers with a fraction are held by their bit patterns
  (`num::Num`) and compared there; they are computed outside of the library and
  handed in, as values to be compared and as texts to be written.
- `app/` is the program: the command line, files, the database, the language
  model backends, and everything that is computed in floating point.
- `tests/` runs the library on examples.

## The library

| Modules | What they hold |
|---|---|
| `text`, `scan`, `digits`, `numeric`, `list`, `order`, `num` | texts, lists, sorting, numbers |
| `dates`, `periods` | days, windows and periods |
| `args`, `config`, `sources`, `paths` | options, profiles, inputs and outputs |
| `table`, `groups`, `columns`, `frames`, `aggregates`, `segments` | tables, their columns and segments |
| `plan`, `alerts`, `analysis`, `turns`, `brief`, `validation`, `suggest` | analyses and their briefs |
| `metric`, `artifacts`, `comparison` | written analyses and how two of them differ |
| `drivers`, `subjects`, `decomposition`, `dimensions` | what drives a change |
| `drill`, `workflow`, `planner`, `proposals`, `planned`, `scope` | the search of an investigation |
| `investigation`, `branches`, `coverage`, `findings`, `report` | what an investigation found |
| `market`, `factors`, `attribution`, `model_report` | prices, factors and attribution |
| `json`, `llm`, `messages`, `answers`, `evidence`, `explaining`, `webpage` | documents, prompts and answers |

Public proof functions whose names begin with `law_` state what holds across
several functions.

What is believed without proof is marked `external_body`, `assume_specification`
or `external_type_specification`: calls into chrono, serde_json, toml,
pulldown-cmark and the standard library. Each of them says above its contract
what it claims.
