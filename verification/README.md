# chaos

Behaviour-based endpoint detection, written in Verus: the events a sensor sends,
the rules that read them, the engine that weighs them and answers, and the pieces
that keep a sensor running. What each function returns is stated in its contract
and proved.

- `src/model`: events, hosts, alerts, attribute values, their classification and
  their redaction.
- `src/sigma`: SIGMA rules: YAML documents, the condition grammar, field tests,
  event views and rule sets.
- `src/pipeline`: the native detection rules, the engine that projects events and
  governs responses, and the run report.
- `src/asmr`: the algebra underneath: state, trace, observation, novelty,
  structure, composition, actions, governance, trust, recovery, scales, orders and
  minimisation.
- `src/observer`: what the observation loop does next, and what it counts.
- `src/supervision`: heartbeats, liveness, restart delays and duty.
- `src/protocol`: the wire contract between client and server, and host tokens.
- `src/config`: settings and what is wrong with them.
- `src/ports`: the ports through which the agent is fed, heard and allowed to act.
- `src/text`, `src/textmap`, `src/numbers`, `src/ratio`, `src/likelihood`: texts,
  maps keyed by text, counters and rising lists, ratios, and pairs of conditional
  probabilities in ten-thousandths.
- `tests`: the library from outside.
- `app`: ordinary Rust around the library: files, sockets, clocks and threads, the
  serialised form of its types, and floating-point arithmetic. A real number that
  the library only compares reaches it as its bit pattern or as a key that orders
  like it.
