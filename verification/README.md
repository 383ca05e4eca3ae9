# pact-mcp-plugin

Contract testing for Model Context Protocol (MCP) servers and clients, built
around a verified matching engine.

## Layout

- `src/` — the library, written and proved with Verus:
  - `json.rs` — the JSON value (`Json`) and its model (`JsonV`) every
    comparison runs over; lookup, equality and the bridge to serde_json's
    printer.
  - `content.rs` — the MCP-aware matcher: `tools/call`, `tools/list`,
    `resources/*`, `prompts/*` results and `tools/call` requests, with its
    laws (consumer-driven coverage, order independence of keyed lists,
    cross-shape errors, `isError` defaulting, type matchers).
  - `model.rs` — the persisted interaction fragment and its JSON form, with
    the round-trip laws.
  - `config.rs` — building an interaction and its matching rules from a
    consumer's `contentsConfig` (flat, or nested under `mcp`), the two parts
    (request and response, each with its body and its rules rooted at `$`)
    and the interaction configuration; the rule map; the rules round trip.
  - `matchers.rs` — inline matcher definitions in an authored body
    (`matching(..)`, `notEmpty(..)`), stripped to their examples and
    recorded as rules.
  - `server.rs` — reading persisted interactions (both shapes), finding one
    by key, extracting matching rules, and the plugin's result records.
  - `mock.rs` — the mock server's decisions: advertised tools, selecting the
    interaction a `tools/call` matches, and the record of requests.
  - `auth.rs` — auth configs and `${VAR}` interpolation against an
    environment snapshot.
  - `jsonrpc.rs`, `transport.rs`, `verify.rs`, `cli.rs`, `catalogue.rs`,
    `text.rs` — envelopes and ids, request/response reshaping, provider
    spawning, the command-line computations, the plugin catalogue, and text
    helpers.
- `tests/` — tests run against the compiled library.
- `app/` — the command line (`mock`, `verify`, `compare`): file and process
  I/O, the rmcp client and server plumbing, and conversions to and from
  serde_json values.

## Notes

- Inline matchers: `matching(type|equalTo, <value>)`,
  `matching(number|integer|decimal, <n>)`, `matching(boolean, true|false)`,
  `matching(include|semver, '<text>')`,
  `matching(regex|datetime|date|time|contentType, '<arg>', '<example>')` and
  `notEmpty(<value>)` are read; a value is a quoted string without a quote
  inside, a number, `true`, `false` or `null`. Other definitions (escaped
  quotes, `eachKey`, `atLeast`, ...) are kept as literal strings; Pact's own
  matcher-expression parser is not among the dependencies here.
- Matching rules are held in `RuleMap`, a `Vec` of path/rules pairs with
  unique paths, and mismatch paths are collected into a sorted `Vec`: the
  verifier specifies `Vec` and string comparison, but gives a
  `String`-keyed `HashMap` or a sort of strings no usable contract.
- The command line has no gRPC plugin mode: the plugin protocol's generated
  service code (from its `.proto` file) is not part of this project, so the
  plugin's gRPC methods are not built. Their computations are in the library
  (`config::configure_response`, `server::compare_contents`,
  `server::extract_interaction`, ...).
- Bodies are written by serde_json from the JSON model, so object keys come
  out in sorted order.
