# zkvm

A small zero-knowledge virtual machine toolkit, verified with Verus.

- `compiler`: lowers an expression language (literals, variables,
  assignment, `+ - *`) to register instructions, one fresh register per
  computed value (`R1` to `R7`).
- `semantics`: what a program means, and the proof that a compiled program,
  run on the execution engine, leaves every variable's value in its
  register.
- `models`, `runtime`: registers, instructions and trace rows; the machine
  that runs a program (from its program memory, or from memory loaded from
  an ELF image), one trace row per cycle.
- `primitives`, `fri`, `plonkish`, `prover`: stand-in hashes, Merkle roots,
  low-degree proofs and their aggregation, trace commitments and the single
  node prover.
- `jobs`, `storage`, `webhooks`, `security`, `client`, `text`: the pure
  parts of the services: status keys, object keys and URLs, delivery
  outcomes, signatures, audit lines, token checks and numerals.

`app/` holds the networked services (the verifier API, the job scheduler
and worker over Kafka and Redis, webhooks, S3 storage and the client SDK);
they call the library for everything they decide or compute.
