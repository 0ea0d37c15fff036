# atp-rs

Guide star selection for the acquisition, guiding and wavefront sensing
(AGWS) probes of a segmented telescope: one star for the tip-tilt (TT7)
sensor, a triplet of stars for the Shack-Hartmann (SH) sensors, each served by
a probe arm that can reach it.

## Layout

- `src/` — the verified library (Verus).
  - `probe.rs`: a probe's guide-star bookkeeping — its reach list (the stars
    within its patrol range, in increasing order) and its assigned star.
  - `selection.rs`: the selection itself. The tip-tilt star is the reachable
    star of least expected error, served by the first probe that reaches it.
    The SH search runs over the stars that the probes list: around each
    candidate, the pair of least azimuth mismatch completes a triplet; each
    star of the triplet takes the nearest free probe that reaches it; of the
    triplets that find probes (up to a given number), the one of least
    wavefront-error estimate is kept. `select_all_guide_stars` runs both.
  - `monte_carlo.rs`: the choice among simulated triplets.
  - `units.rs`, `catalog.rs`, `time.rs`, `text.rs`: configuration units,
    catalog dispositions, the reading of observation times, text comparison.
  - `errors.rs`, `models.rs`: the error type and the web error body.
- `app/` — ordinary Rust around the library: observatory and target
  astronomy, star field geometry, probe geometry, wavefront error budgets,
  YAML configuration, TIC catalog queries over HTTP, the Monte Carlo photon
  budget, and the web data models. All of it computes in floating point or
  performs I/O.
- `tests/` — tests of the library.

## Order keys

The library never sees a floating-point number. Every quantity that the
selection compares reaches it as an order key: an unsigned integer whose
order is the order of the quantity (`app/keys.rs` computes them from the bit
pattern of an `f64`). A quantity that no comparison accepts (a NaN, or an
infinite distance that never beats an infinite starting best) is `None`.
The contracts in `src/` state each choice over these keys.
