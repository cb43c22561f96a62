# ferveo

Share refresh and share handover for a threshold decryption committee on BLS12-381, verified with
Verus.

A committee holds a private key in shares: the values of a polynomial at the elements of an
evaluation domain, each blinded by the key of the validator who holds it.

- **Refresh.** Each validator deals a random polynomial that vanishes at zero. The others verify
  the transcript against its commitments, and add the updates to their shares. This
  re-randomises the shares, and leaves the secret as it was.
- **Handover.** An incoming validator blinds the share of a departing one a second time. The
  departing validator takes its own key off, and what is left is the same share under the key of
  the incoming one.

## Layout

| Module | What it holds |
| --- | --- |
| `refresh`, `handover` | the two protocols |
| `key_share`, `keypair`, `domain` | shares, keys, evaluation domains, Lagrange coefficients |
| `scalar`, `curve` | scalars, points, the pairing |
| `error`, `common`, `text` | errors and their texts |
| `indices` | the keys of hash maps, sums over them |
| `laws` | what holds of refresh and handover as a whole |
| `modular`, `poly`, `interpolation` | congruences, polynomials, Lagrange interpolation |
| `number_theory`, `powers`, `primality` | the group order is prime |
| `backend` | the calls into the arkworks crates, the only trusted code |

A point is viewed as its discrete logarithm, an integer modulo the group order. What the
arkworks crates do is stated in `backend` in these terms; everything above it is proved.

`app/` holds the wire forms of the types, the errors as standard errors, and the boundary to the
threshold decryption layer.

## Preconditions

A transcript that fails verification leaves `verify_refresh`, `apply_share_updates` and
`finalize` without a result. They say so in their preconditions. Where the input is not known to
be good, call `try_verify_refresh`, `try_apply_share_updates` and `try_finalize`.
