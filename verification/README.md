# ruclei

A template-driven HTTP vulnerability scanner. Templates in the Nuclei YAML
format describe requests to send to each target and how to judge the
responses (matchers) and what to pull out of them (extractors).

The library under `src/` is written in Verus: each function carries a
`requires`/`ensures` contract over mathematical models (sequences of
characters, views of the data types) and is proved against it.

- `text` — character-level string operations and their specifications.
- `scanner` — requests, responses, cluster keys; `scanner::http_client`
  holds what the client decides (kept headers, retry pauses).
- `cluster` — the response cache keyed by cluster key, with its counters.
- `rate_limit` — the sliding-window limiter with a minimum delay.
- `template` — template data; `template::parser` and `template::cache` hold
  template checks, signature-line removal, cache paths and fingerprints.
- `dsl`, `matcher`, `extractor` — response evaluation.
- `raw_request` — placeholder substitution and raw HTTP request parsing.
- `cli`, `engine`, `output` — configuration and filters, request planning
  and response evaluation for one template, and report text.
- `regex_support`, `urls`, `time` — the calls into `regex`, `url` and the
  clock, each behind a small trusted wrapper whose contract is stated.

`app/` is the command-line program: argument parsing with `clap`, file
access, YAML and JSON with `serde`, HTTP with `reqwest`, parallel execution
with `rayon`, coloured output, and the figures computed in floating point.
