# wrela_compiler

The verified core of the Wrela compiler: the parts of the compiler that decide and
compute, each with a contract proved by Verus.

## Layout

- `src/hashing.rs`: canonical big-endian encodings, length-framed parts, and the one
  call into `xxhash-rust` (XXH3-128), plus the verifier's independent encoder.
- `src/text.rs`, `src/ordering.rs`: decimal and hexadecimal text; the byte-wise order of
  strings.
- `src/compiler.rs`: project files and snapshots (with an order-independent digest),
  requests, cancellation, source ranges, diagnostics and their stable order, the
  observation types of every phase, and the admission of project files.
- `src/architecture_planning.rs`: the architecture contract of the current AArch64
  profile, its producer and its independent verifier, and the plan it authenticates.
- `src/distribution.rs`: the sealed modules of the compiler distribution and its digest.
- `src/completed_semantic.rs`: compilation-context and completed-program identities,
  typed references and current meanings, the walk of the specializations reached
  through calls, the independent traversal of values, and references to evaluation roots.
- `src/executable_demand.rs`: the executable demand of a completed program: its
  production from the program's roots, calls and closures, its independent verification,
  and the source executables it hands to the core planner.
- `src/completed_actors.rs`: the completion of actors with their async handler
  specializations, and their independent verification.
- `src/evaluator.rs`: the evaluation meter (fuel, memory, per-site attribution),
  values, checked integer arithmetic, places (read, extract, store), canonical values,
  argument binding, and the producer's visits of values.
- `src/control_flow.rs`: termination and match-coverage rules over models of syntax and
  verified statements.
- `src/core_program.rs`: core executables, their facts, producer and verifier
  fingerprints, program fingerprints, and the validation of control and value graphs.
- `src/core_oracle.rs`: the semantic oracle that walks a core executable and compares
  its outcome with the evaluator's.
- `app/lib.rs`: half-precision and other floating-point encodings, which stay outside
  the verified library.
- `tests/`: executable tests of the library.

## Not in this library

The compiler's front end and semantic passes are not part of this library: parsing,
module paths and import closure, identities, name resolution and type checking, solved
semantic facts, image planning and evaluation, and core lowering. So are the pieces that
rest on them: the compile driver and its poisoning after a panic, the sealing of a
compiler distribution, the completion of a whole semantic program with its construction
graph and its verifier, the core realization verifier, and the canonical tags of build
kinds and built-in variants that the graph fingerprints hash. Where a part of this
library reads what those passes produce (solved calls, closures of specializations, test
bodies, actor handlers), it takes it as plain values of its own types.
