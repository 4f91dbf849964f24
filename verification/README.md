# git_host

GitLab merge-request plumbing (through the `glab` CLI) and the decisions of a
workspace file browser, written in Verus.

- `src/` is the verified library: remote-URL parsing, `glab` command lines,
  the reading of `glab`'s output (merge requests, discussions), the mapping of
  CLI failures to provider errors, client-path resolution, directory
  listings, and a verified stable sort. `src/trusted.rs` holds the calls into
  `chrono` and std whose results are taken on trust.
- `app/` runs `glab`, decodes its JSON with serde, drives the asynchronous
  provider with retries, and serves the file routes with axum.
- `tests/` exercises the library on concrete values.
