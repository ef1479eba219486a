# tasty

Tasty runs API tests written as TOML tables. Each table is a test: a JSON
request to a route, and what the response must be (a status code, values at
dot-notation paths, or regular expressions those values must match). A
payload can take values from the responses of earlier tests with
`{ from = "test_name", property = "path.to.value" }`.

## Layout

- `src/` is the library, verified with Verus. It holds the JSON model and its
  compact text, dot-notation lookup, the response store, reference
  resolution, the literal and regex checks, the order of the tests in a file,
  the two stages of running a test (`begin_test_case` plans the request,
  `finish_test_case` judges the reply), and the bookkeeping of a run
  (`SuiteRun`).
- `app/` is the command-line program: argument parsing, reading the test
  files, sending the requests with `reqwest`, and printing the progress. It
  hands the library plain values and acts on what the library decides.
- `tests/` runs the library on concrete values.
