# tilde

The connection and deployment logic of the tilde service, written in Verus
and proved against its contracts.

- `src/` is the library. Each module states what its functions return in
  `requires`/`ensures` over spec functions, and its laws as public proof
  functions named `law_*`. Calls into outside crates (`url`, `uuid`, `sha2`,
  `base64`, `serde_json`, `jsonschema`, `chrono`, `rand`, `subtle`,
  `zeroize`, `hex`) go through small trusted wrappers whose doc comments say
  what is claimed of them.
  - `catalog`, `model`, `schema`, `setup`, `oauth`, `assets`, `address`:
    providers, connection types, credential setup and OAuth.
  - `deployment`: how agents' sidecars and the gateway share conversations:
    projection of replica events, leases, retention, the proxy, relays,
    cold starts, runs, messages, work items, bridging of shared history.
  - `json`, `pointer`, `text`, `ids`, `crypto`, `error`: the value types and
    helpers the rest builds on.
- `tests/` runs the library on concrete values.
- `app/` holds what Verus does not check: moving values between
  `serde_json` and the library's types, the clock, and the sidecar's
  environment.
