# meilisearch_importer

An HTTP service that imports JSON, NDJSON and CSV documents from a URL into
a Meilisearch index, and the verified library that takes its decisions.

- `src/` — the library, verified with Verus:
  - `format`: document format and compression detection;
  - `text`: whitespace, trimming and substring tests on characters;
  - `codec`: decompression (gzip, bzip2, xz, zstd) and gzip compression;
  - `lines`: splitting NDJSON and CSV bodies into lines and reading them;
  - `json`: reading the values of a JSON body byte by byte, and removing
    the embedding field of a document;
  - `batch`: filling batches under a byte budget, and their upload bodies
    (a JSON array, NDJSON lines, or CSV rows under their header);
  - `stream`: the documents of a body that arrives in chunks, and the
    batches they fill;
  - `session`: one import from its first chunk to the end of its body;
  - `request`: requests, responses, errors, batch size, upload requests
    (endpoint, query, method, headers);
  - `retry`: the retry policy of uploads;
  - `laws`: properties of the pipeline as a whole.
- `app/` — the server: actix-web endpoints, downloads and parallel uploads
  with reqwest, command-line options.
- `tests/` — tests of the library.
