# decentralized-root-of-trust

A status list that no single party controls. A committee of `N` members is fixed in an
*anchor*; a list at a version is authorized once `t` distinct members have signed it.
A relying party needs nothing but the anchor, and a *high-water mark* that keeps it from
going back to an older list.

The library is written in Verus. What functions return or change stands in their
contracts, and the contracts are proved.

## Layout

| directory        | what is in it |
|------------------|---------------|
| `src/protocol`   | the anchor, the message that is signed, and both published forms of a list: one with raw signatures, one with an aggregate |
| `src/node`       | members, publisher and relying parties of the stateful scheme |
| `src/state`      | what has to survive a restart: the slot counter's journal, the signed head, the mark |
| `src/mldsa`      | the same over ML-DSA-65, which has no state |
| `src/demo`       | the network: wire messages, credentials, names of files, rounds of members, aggregators and holders |
| `src/bench`      | what the measuring programs compute |
| `src/text.rs`, `src/bytes.rs`, `src/framing.rs`, `src/bitlist.rs`, `src/hash.rs` | text, little-endian bytes, why a container is refused, signer bitmaps, digests |
| `tests`          | the library from outside, on given values |
| `app`            | files, locks, sockets, clocks, printing, and the XMSS scheme and its aggregation |

Proof functions whose names begin with `law_` state what holds of several functions
together: round trips and unique encodings, that a slot is never signed twice, that a
replay is stale, that evidence is bound to one list, one version and one anchor.

## What is not proved

Digests, ML-DSA-65, the signer bitmap and JSON are called from other crates, and a few
functions on text from the standard library. Each call stands in a small function
marked `#[verifier::external_body]` whose doc comment says what is claimed of it.

The stateful signature scheme, its aggregation, and whatever writes, sends or publishes
are handed to the library as functions. The contracts say what each may be asked, and so
in which order: a key signs only at a slot whose write has succeeded, a mark is stored
only for a record that verified, nothing but the record of a quorum is published. They
also say what follows from each answer.
