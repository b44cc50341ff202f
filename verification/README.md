# bn

Pairing-friendly elliptic curve arithmetic over the BN254 curve, verified with Verus.

The library provides the base field `Fq`, the scalar field `Fr`, the quadratic extension `Fq2`,
the groups `G1` (points of `y^2 = x^3 + 3` over `Fq`) and `G2` (points of the twist over `Fq2`),
compressed point decoding, and the optimal ate pairing into the target group `Gt` (a subgroup of
the degree-twelve extension `Fq12`), with single and batched pairings and the raw batched Miller
loop.

Every operation carries a contract over a mathematical model: a field element is modelled by its
value modulo the characteristic, a point by the values of its Jacobian coordinates, a `Gt`
element by the values of its twelve `Fq` coefficients. The group formulas, the Miller loop and the
final exponentiation are stated as spec functions that the executable code is proved to compute.

Layout of `src/`:

- `arith.rs`: 256- and 512-bit unsigned integers (`U256`, `U512`) with byte conversions, bit
  access and long division.
- `modular.rs`: modular addition, subtraction, multiplication, exponentiation and the binary
  extended Euclidean inverse.
- `fp.rs`: the prime fields `Fq` and `Fr`, with decimal parsing, byte conversions and square
  roots.
- `fq2.rs`: `Fq2 = Fq[i] / (i^2 + 1)`.
- `fq12.rs`: the tower `Fq6 = Fq2[v] / (v^3 - (9 + i))`, `Fq12 = Fq6[w] / (w^2 - v)`, the
  Frobenius maps and the final exponentiation.
- `g1.rs`, `g2.rs`: the groups in Jacobian and affine coordinates, scalar multiplication and
  point decompression.
- `group.rs`: the `Group` trait that both groups implement.
- `pairing.rs`: line precomputation, the Miller loop, `pairing`, `pairing_batch`, their
  `_checked` forms that return `None` where the final exponentiation has no value,
  `miller_loop_batch` and `Gt`.
- `laws.rs`: laws relating the operations (round trips, group identities, commutativity of
  addition on `G1` and `G2`, the chord and tangent forms of addition on `G1`, decompression
  signs, the ring and power laws of `Gt`, and that the batched pairing is the product of the
  pairings in any order), proved over the same models.
- `tower_algebra.rs`, `frobenius_algebra.rs`: the proofs behind the laws on `Gt`: the reduced
  operations of the tower are congruent to exact integer forms that obey the ring laws, the
  inverses are inverses, the Frobenius maps are ring homomorphisms, and so is the final
  exponentiation.
- `power_algebra.rs`: square-and-multiply powers in `Fq2` and `Fq12` equal repeated products,
  so exponents add and multiply; one is fixed by powers, inversion and the final exponentiation.
- `group_algebra.rs`, `group2_algebra.rs`: the `G1` and `G2` addition and doubling formulas
  over the integers, from which addition is proved commutative, and, on `G1`, equal to the
  chord and tangent constructions of the affine group law.

The only unverified code is the call into `rand` that draws random words.
