# bugpot

A single-host container platform for small apps, with its logic written and
proved in Verus.

- **Routing.** Apps share one HTTP port; a request goes to the app whose
  subdomain its `Host` header names.
- **Outbound traffic.** An app reaches only the names and networks that its spec
  lists, by way of the platform's name server and packet filter.
- **Scale to zero.** Idle apps are frozen and resumed by the next request; under
  memory pressure the one that was asked for least recently is stopped.

## Layout

- `src/` is the library. It holds every decision, and no I/O:
  - `config`: app specs, their validation, spans of time, registry credentials
  - `apps`: the state of an app, and what happens to it step by step: start,
    freeze, stop, update, rollout, removal, boot and sweeps
  - `egress`: allowlists, addresses, namespaces, packet-filter scripts, DNS
  - `router`: hosts, headers, forwarding, spliced connections
  - `admin`: tokens, deploy keys, request bodies, error statuses
  - `daemon`, `cli`: settings from the environment, client requests and tables
  - `text`, `number`, `namemap`: strings, numbers and maps keyed by strings
- `app/` performs what the library decides: sockets, files, processes, timers.
- `tests/` runs the library.

Long operations are state machines: the library hands out the next action, `app/`
carries it out and hands the outcome back. Their transition relations are spec
functions whose names end in `follows`, and the laws at the end of each
file are proved over them.

Calls into other crates stand behind `#[verifier::external_body]` functions. The
comment above each says what is taken from that crate without proof.
