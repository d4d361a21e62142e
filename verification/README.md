# dmkg

Distributed generation of a key in several parts, partially aggregatable, in Verus.

A committee generates

    sk = (x1, x2, y1, y2, z)
    pk = (c1, c2, c3) = (g1^x1 g2^x2, g1^y1 g2^y2, g1^z)

by two sharings per dealer. `z` is shared by a publicly verifiable layer, whose transcripts are folded
up a binary tree. The other four secrets are shared by Pedersen commitments over polynomials that each
pin two secrets; the shares travel encrypted, a receiver whose share does not check complains, and a
dealer that cannot answer is out. A dealer that the layer for `z` reported is out without a dispute.

## What is proved

Group elements are viewed as exponents of the group's generator and scalars as integers below the
group's order, so that contracts speak of polynomials over the integers modulo the order.

- `algebra`, `curve`: congruences and Lagrange interpolation; scalars and points over a curve.
- `bls`, `jubjub`, `pairing`, `hash`, `json`: the calls into arkworks, BLAKE2s and serde_json. These
  contracts are trusted.
- `dkg`: the sharings, their encryption, complaints and disputations, the aggregated key, and its
  reconstruction from any `degree + 1` receivers. The laws are the functions named `law_..`.
- `sim`: a run stepped phase by phase, with its log and what each participant sees.
- `bench`: five key generations side by side, the command line, and the rows of the table.
- `web`: requests and replies of the web interface.

## Layout

- `src/` is the verified library.
- `tests/` run it with the outside crates linked.
- `app/` holds the programs: the benchmark (with the protocols that need no pairing on Jubjub, or
  with `dmkg pf-bls` on BLS12-381), the sweep (`dmkg sweep`) and the web interface (`dmkg ui`, whose pages are read from `ui/web`). The layer for `z` comes from the
  `aggregatable_dkg` crate, in `app/z_layer.rs`.

This is research code: it is not constant-time, and none of it is meant for production.
