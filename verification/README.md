# json-validator

Checks property-listing JSON before an import or publication pipeline, and classifies the
advertising permission that each listing records as `Confirmed`, `Rejected` or `Unknown`.
Unknown information never counts as confirmed.

The library in `src/` is written in Verus and verified:

- `json`: the parsed JSON value that validation reads.
- `validate`: listing and document validation, with the reports it yields specified exactly
  (`document_outcome`, `listing_outcome`, `permission_outcome`).
- `report`: input errors, the exit code, the summary counts and the text report.
- `cli`: the command line, the choice of `.json` files in a directory, the size limit.
- `text`, `order`: trimming, decimal numbers, JSON Pointer escaping, terminal-safe text,
  lexicographic order and sorting.
- `properties`: what validation guarantees of every document, as proved lemmas: when a
  listing and a document pass, how evidence is classified, how the summary counts and exit
  codes relate.
- `issue_paths`: where issues point: under their own record, and at a checked field exactly
  when that field is wrong.

`app/` holds the program: argument and file access, JSON parsing with serde_json (which
asks the library whether an object key repeats), and the JSON report.

| Exit code | Meaning |
| --- | --- |
| `0` | Every listing is valid and its evidence outcome is `Confirmed`. |
| `1` | Malformed JSON, validation failures, or evidence that is `Rejected` or `Unknown`. |
| `2` | Command usage, file access, or input discovery failed. |
