# aethel

Programmable payment-stream receivables, written in Verus: every operation
states what it accepts, what it refuses and why, and what it does to the
book it acts on, and Verus proves the code against those statements.

## Layout

- `src/types.rs`: identifiers, times, the domain-separated SHA-256 digest,
  and Ed25519 signature checks.
- `src/canon.rs`: the canonical JSON encoding that statements are digested
  from.
- `src/stream.rs`, `src/receivable.rs`, `src/artifacts.rs`,
  `src/provider.rs`, `src/subject.rs`: the records of the protocol and their
  well-formedness rules.
- `src/contract.rs`: what providers sign with: the signed-artifact contract,
  Ed25519 signing of artifacts and key-possession proofs, and verification
  of an artifact against a provider registry.
- `src/book.rs`: the Aethel book. Each operation (provider and stream
  registration, series, credit decisions, guarantees, funding quotes,
  issuance, releases, defaults, claims, status changes, key rotation, and
  credit decisions and guarantees recorded with the confidential subject the
  identity layer verified for them) is specified exactly over `BookState`,
  and a `law_*` proof for each shows that it keeps a valid book valid (for
  a confidential one on a new subject line, when the records already held
  for that request still check out once the subject is bound).
  Each book's `validate` states which error it returns, in the order its
  checks run, not only whether it accepts.
- `src/tokenization.rs`, `src/distribution.rs`, `src/servicing.rs`,
  `src/wallet.rs`: token series and mint/burn intents, circulation requests
  and venue fills, servicing of a stream, and the obligation wallet's
  payment queue, each with its state model, invariant, and laws. The
  distribution laws show that admission, fills and outcomes keep the book
  valid when the transfer-restriction digest they carry is not all zero
  bytes: that digest is a SHA-256 output, and `validate` refuses an
  all-zero one, which no law here can rule out.
- `src/order.rs`, `src/seqs.rs`: ordering and sequence-search helpers with
  their lemmas.
- `tests/`: executable tests of the library.
