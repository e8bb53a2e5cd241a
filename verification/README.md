# ibc

Identity-bound commitments over the Ristretto group, and the Σ-protocols that
prove relations between them, verified with Verus.

A commitment `c = id·g_iden + val·g_val + blinding·g_ran` binds an identity, a
value and a blinding factor. The proofs show, without opening anything, that
two commitments carry one identity (Π.IDEq, and Π.MIDEq for n of them), that a
commitment holds a public value (Π.VVer), that two commitments hold one value
(Π.VEq), that one commitment re-randomises another (Π.FullEq), and that a
transaction commitment carries a registered identity and a declared value
(Π.TxVer). Many Π.IDEq proofs can be checked at once (`batchver`).

## Layout

- `scalar`, `point`, `hashing`: scalars modulo ℓ and group elements, viewed as
  integers (a point as its discrete logarithm). curve25519-dalek and sha2 do the
  arithmetic behind small trusted wrappers.
- `transcript`: Fiat–Shamir challenges from a merlin transcript, viewed as the
  sequence of operations applied to it.
- `algebra`, `bytes`, `encoding`: linear combinations modulo ℓ, byte helpers,
  and the wire format of proofs.
- `params`, `commitment`: the public generators and the commitment scheme.
- `sigma`, `schnorr`: the generic Σ engine and the Schnorr protocol, with
  completeness, simulation and extraction lemmas.
- `ideq`, `vver`, `veq`, `fulleq`, `mideq`, `txver`, `batchver`: the protocols.
  Each verifier's contract is the exact verification equation; each prover's
  contract says what it answers and that honest proofs are accepted.

`tests/` holds the scenarios, run against the real outside crates.
