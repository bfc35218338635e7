# credx

Presentations of anonymous credentials over BLS12-381, verified with Verus.

A presentation proves the statements of a schema: knowledge of signatures over claims, and
predicates on hidden claims (equality, accumulator membership, commitment, verifiable encryption,
range). Claims that a statement compares take part in the proofs as one: they are disclosed where
all of them are asked for, and otherwise stay hidden. A range is proved next to the commitment that
it refers to; a verifier accepts no range statement. All proofs answer one Fiat-Shamir challenge,
drawn from a transcript that binds the curve, the nonce, the schema, the disclosed claims and what
every proof contributes.

- `src/` is the library. `create.rs` and `verify.rs` make and verify presentations, `presentable.rs`
  tests beforehand whether one can be made, `assign.rs` finds out how each claim takes part in the
  proofs. `creation.rs`, `verification.rs`, `message_types.rs` and `linking.rs` hold what their
  contracts say. `challenge.rs` and `transcript.rs` are about what is bound into the challenge.
  `laws/` states what holds of presentations as a whole.
- `suite.rs` has the trait through which claims are encoded and the cryptography of single
  statements is called.
- `tests/` runs the library with a small suite of its own.
- `app/` has the presentation in a form that can be serialized.

The library calls `merlin` for the transcript, `uint-zigzag` for the encoding of numbers, and
`bls12_381_plus`, `group` and `rand_core` for scalars and generators. Each such call stands in one
function marked `external_body`, with a contract that says what is relied on.
