# rs_hyperloglog

A HyperLogLog sketch in Rust, verified with Verus. It keeps `2^p` one-byte
registers and lets the number of *distinct* items in a stream of any length be
estimated from them.

```rust
use rs_hyperloglog::HyperLogLog;

let mut a = HyperLogLog::new(12).unwrap();
let mut b = HyperLogLog::new(12).unwrap();
for i in 0..500 {
    a.insert(&format!("a-{i}"));
    b.insert(&format!("b-{i}"));
}
a.merge(&b).unwrap();
```

## What is proved

- A register holds the highest rank among the hashes that select it, and zero
  if none does (`Sketch::summarizes`). The rank is the 1-based position of the
  leftmost 1-bit after the first `p` bits, which select the register.
- Order and repetition leave no trace: two streams with the same distinct
  hashes, or the same distinct items with stable hashes, have the same effect
  on a sketch.
- Merging two sketches of one precision is the same as having inserted
  everything into one. It is commutative, associative and idempotent.
- A sketch is empty exactly when nothing was inserted.

The one call that is trusted is `Hash::hash` on the item. Nothing is claimed of
what an item writes to the hasher; the laws about inserting an *item* twice ask
that its hash be stable (`item::hash_is_stable`).

## Layout

- `src/`: the verified library. `estimator.rs` holds the type, `sketch.rs` its
  model, `hash_bits.rs` the reading of a hash, `item.rs` the hashing of items,
  `laws.rs` what holds across operations, `error.rs` the errors.
- `app/`: the estimates themselves, which are floating-point formulas over the
  registers, and an error type with `Display`.
- `tests/`: tests on concrete values.
