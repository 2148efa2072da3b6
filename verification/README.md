# paradox_api

A JSON API over the tables of an FDB database file: it reads request paths, finds tables and rows,
and makes responses. The library under `src/` is verified with Verus; its crate documentation says
how the modules fit together.

Paths, with any number of slashes at the start:

| Path | Answer |
| --- | --- |
| `/v0/tables`, `/v1/tables` | the names of all tables |
| `/v0/tables/<name>`, `/v0/tables/<name>/def` | the definition of a table |
| `/v0/tables/<name>/all` | all its rows |
| `/v0/tables/<name>/<key>` | its rows with this primary key |
| `/v0/locale/...` | a node of the locale tree |
| `/v0/openapi.json` | the description of the API |

Anything else is answered with status 404 and the body `404`. A table that is not there, and a key
that is no value of the type of the table's first column, are answered with status 404 and the body
`null`. A key that no row has is answered with an empty list.

`app/` puts the library behind `tower`, `hyper` and `warp`: it reads floating point numbers, writes
rows and definitions as JSON, and does the I/O.
