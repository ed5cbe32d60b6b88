# metassr-api-handler

The function registry behind a FaaS endpoint: it keeps track of which scripts were handed to
the MetaCall polyglot runtime and under which language, decides what loading a resource asks
of the outside world, and describes what is loaded as a deployment.

- `src/` is the verified library (Verus): the message and deployment types (`types`), the
  path questions asked of `std::path` (`paths`), the registry and its invariant
  (`registry`), the load plans of a resource (`plan`), the deployment description
  (`deployment`), the step-by-step load (`session`), the shared endpoint state (`faas`) and
  the RPC replies (`rpc`).
- `app/` is the plain Rust around it: the axum route, the serde wire format, directory
  listing, and the calls into the MetaCall runtime.
- `tests/` exercise the library on concrete values.
