# oh-mcp-lindas

An MCP server over the political data cubes of the Swiss Confederation on
LINDAS, the federal linked-data store: eight tools (`lindas.list_cubes`,
`lindas.find_cube`, `lindas.describe_cube`, `lindas.dimension_values`,
`lindas.observations`, `lindas.list_versions`, `lindas.describe`,
`lindas.resolve_label`) that read a fixed list of 44 cubes through one
SPARQL endpoint and answer with what the store holds — never more.

The library in `src/` is written in Verus and verified: every public
function states in its contract what it answers for every input.

- `scope` — the served list of 44 cubes, their families and versions.
- `text`, `json` — string helpers and the JSON value the answers are built
  of, with the byte length its compact text has.
- `backend` — requests and replies, the IRI and literal checks, and the
  typed refusals of the endpoint.
- `fixtures` — the file a recorded answer lives in, and the index line
  that names it.
- `throttle` — the frozen clock of the polite brake and the reading of its
  refusal.
- `domain` — the context, the queries, the cell and label readers and the
  refusals every tool shares.
- `tools`, `catalogue`, `shape`, `cube`, `observe` — the tools. Each one
  is a start function and a run that is resumed with the reply to the
  request it names, until it answers.
- `server` — the tool lines and the splitting of `dimension=value`
  filters.
- `laws` — the properties that span functions, stated and proved.

`app/` performs what the library names: the HTTP requests (with the
token-bucket brake, which counts fractional tokens), the recorded answers
on disk, the serde wire form and the rmcp tool router.

`tests/` runs the library on concrete inputs, with the store's replies
written out in each test.
