# blobservices

A small blob store: a manager that keeps what is known of each blob
(size, checksums, where its copies are, which blobs are slices or
transforms of others), stores that keep the contents, and a gateway that
clients talk to.

- `src/` is the verified core: the `Range` and `Content-Range` grammars,
  byte-range arithmetic, address sanitising, the choice of where to read
  a blob from, transform validation, the one-pass hasher, the manager's
  recipe checks and source search, AWS Signature Version 4 and CloudFront
  signed URLs. Verus proves each executable function there against its
  contract. Calls into the hashing, HMAC, Base64, JSON and RSA crates go
  through small trusted functions; their contracts say what those crates
  compute as far as the crates' sources show it, and name a result where
  it is a function of the arguments alone.
- `tests/` runs the library against known vectors and independent
  readings of the same rules.
- `app/` is the services themselves (HTTP, Postgres, files, S3), which
  hand plain values to the library and act on what it returns. Run it as
  `blobservices gateway|manager|store-local|store-s3`.
