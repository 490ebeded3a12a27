# purple-wolf

A web application firewall and its webhook relay, verified with Verus.

- `src/` is the library. Every item in it is verified.
  - `request`, `detectors`, `policy`, `audit`: from a request to a decision and its log line.
  - `traefik`: the http-wasm guest's decisions, and what it makes of its host's answers.
  - `sidecar`: the proxy's decisions.
  - `relay`: from the proxy's log lines to signed webhooks.
  - `text`, `bytes`, `numbers`, `json`, `ip`, `labels`, `clock`, `config`: what the others share.
- `app/` is the program around it: files, sockets, tasks, and the C tokenizers of libinjection.
- `tests/` runs the library with the crates that it calls.

The laws of the library are the public proof functions whose names begin with `law_`.
