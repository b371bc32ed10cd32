# artifact_cache

The core of a cache server for CI runners (the `actions/cache` protocol as
spoken by Forgejo runners), written in Verus.

- `src/` is the verified library: request authentication (HMAC-SHA256 over
  the request metadata), the tables of uploads, chunks and cache entries with
  their invariants, the decisions of every endpoint (reserve, upload chunk,
  commit, find, download), the storage plans (chunk naming, and joining the
  chunks of an upload in the order of their offsets) and the cleanup jobs'
  selections. Chunks are stored as objects of their own on either storage;
  a commit joins them in the order of their offsets (on S3 by copying the
  k-th chunk object into part k + 1 of the multipart upload). `src/laws.rs` states properties of the whole.
- `app/` is the server around it: configuration, HTTP routing with axum,
  file storage on disk or in S3, and the periodic cleanup tasks.
- `tests/` exercises the library on concrete values.
