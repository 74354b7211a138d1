# pcli

A command line client for the Physna 3D model search service, with its core
written in Verus and proved against its contracts.

## Layout

- `src/` — the verified library:
  - `model`, `text_map` — the data model; string-keyed maps that keep
    insertion order.
  - `text`, `csv_text`, `names`, `tables`, `score_tables` — text rendering and
    the CSV tables of every result type.
  - `client` — the meaning of service replies (status codes, errors, paging)
    and the queries sent.
  - `format` — output format names.
  - `folders`, `report`, `service`, `labels`, `upload`, `graph`, `bom`,
    `cache`, `selection`, `equality`, `matching`, `listing` — the decisions
    of the service workflows: folder validation, duplicate reports (with the
    law that a report over several models is the union of the reports over
    each), status counts, label inference, metadata upload, assembly graphs,
    bills of materials, the model cache, and the gathering of paged
    listings and matches.
  - `configuration`, `token` — tenants and the access token flow.
- `tests/` — tests of the library on concrete values.
- `app/` — the program around the library: argument parsing, HTTP calls,
  files, JSON and YAML, colored and tree output.
