use std::collections::hash_map::DefaultHasher;
use std::hash::{Hash, Hasher};

use rs_hyperloglog::{HyperLogLog, HyperLogLogError, MAX_PRECISION, MIN_PRECISION};

/// The cardinality estimate that the registers of `hll` stand for.
fn estimate(hll: &HyperLogLog) -> f64 {
    let m = hll.num_registers() as f64;
    let alpha = match hll.num_registers() {
        16 => 0.673,
        32 => 0.697,
        64 => 0.709,
        _ => 0.7213 / (1.0 + 1.079 / m),
    };
    let sum: f64 = hll.registers().iter().map(|&r| 2f64.powi(-(r as i32))).sum();
    let raw = alpha * m * m / sum;
    let zeros = hll.zero_registers();
    if raw <= 2.5 * m && zeros > 0 {
        m * (m / zeros as f64).ln()
    } else {
        raw
    }
}

fn with_hashes(p: u8, hashes: &[u64]) -> HyperLogLog {
    let mut hll = HyperLogLog::new(p).unwrap();
    for &h in hashes {
        hll.insert_hash(h);
    }
    hll
}

/// A fixed stream of well-mixed 64-bit values.
fn stream(seed: u64, n: usize) -> Vec<u64> {
    let mut state = seed;
    (0..n)
        .map(|_| {
            state = state.wrapping_add(0x9e37_79b9_7f4a_7c15);
            let mut z = state;
            z = (z ^ (z >> 30)).wrapping_mul(0xbf58_476d_1ce4_e5b9);
            z = (z ^ (z >> 27)).wrapping_mul(0x94d0_49bb_1331_11eb);
            z ^ (z >> 31)
        })
        .collect()
}

#[test]
fn new_rejects_out_of_range_precision() {
    assert_eq!(
        HyperLogLog::new(3).unwrap_err(),
        HyperLogLogError::PrecisionOutOfRange { requested: 3 }
    );
    assert_eq!(
        HyperLogLog::new(17).unwrap_err(),
        HyperLogLogError::PrecisionOutOfRange { requested: 17 }
    );
    assert!(HyperLogLog::new(4).is_ok());
    assert!(HyperLogLog::new(16).is_ok());
}

#[test]
fn empty_estimator_estimates_near_zero() {
    let hll = HyperLogLog::new(10).unwrap();
    assert!(estimate(&hll) < 1.0);
}

#[test]
fn merge_rejects_mismatched_precision() {
    let mut a = HyperLogLog::new(10).unwrap();
    let b = HyperLogLog::new(12).unwrap();
    assert_eq!(
        a.merge(&b),
        Err(HyperLogLogError::PrecisionMismatch {
            self_p: 10,
            other_p: 12,
        })
    );
}

#[test]
fn small_cardinality_is_roughly_correct() {
    let mut hll = HyperLogLog::new(14).unwrap();
    for i in 0..100 {
        hll.insert(&format!("small-item-{i}"));
    }
    let estimate = estimate(&hll);
    let true_count = 100.0;
    let relative_error = (estimate - true_count).abs() / true_count;
    assert!(
        relative_error < 0.15,
        "estimate {estimate} too far from true count {true_count} (relative error {relative_error})"
    );
}

#[test]
fn reinserting_same_items_does_not_change_estimate() {
    let mut hll = HyperLogLog::new(12).unwrap();
    let items: Vec<String> = (0..5_000).map(|i| format!("dup-item-{i}")).collect();

    for item in &items {
        hll.insert(item);
    }
    let registers_before = hll.registers().to_vec();
    let estimate_before = estimate(&hll);

    for item in &items {
        hll.insert(item);
    }
    let estimate_after = estimate(&hll);

    assert_eq!(
        estimate_before, estimate_after,
        "re-inserting identical items must not change the estimate at all"
    );
    assert_eq!(hll.registers(), &registers_before[..]);
}

#[test]
fn estimates_large_known_cardinality_within_expected_error() {
    const P: u8 = 14;
    const M: f64 = 16_384.0; // 2^14
    const TRUE_CARDINALITY: f64 = 100_000.0;
    const STANDARD_ERRORS_ALLOWED: f64 = 4.0;

    let mut hll = HyperLogLog::new(P).unwrap();
    for i in 0..100_000u32 {
        hll.insert(&format!("item-{i}"));
    }

    let estimate = estimate(&hll);

    let relative_standard_error = 1.04 / M.sqrt();
    let tolerance = STANDARD_ERRORS_ALLOWED * relative_standard_error * TRUE_CARDINALITY;
    let lower_bound = TRUE_CARDINALITY - tolerance;
    let upper_bound = TRUE_CARDINALITY + tolerance;

    assert!(
        estimate >= lower_bound && estimate <= upper_bound,
        "estimate {estimate} outside [{lower_bound}, {upper_bound}]"
    );
}

#[test]
fn is_empty_reflects_whether_anything_was_inserted() {
    let mut hll = HyperLogLog::new(10).unwrap();
    assert!(hll.is_empty());
    hll.insert(&1u32);
    assert!(!hll.is_empty());
}

#[test]
fn clear_resets_to_empty_and_stays_usable() {
    let mut hll = HyperLogLog::new(12).unwrap();
    for i in 0..5_000u32 {
        hll.insert(&i);
    }
    assert!(estimate(&hll) > 1_000.0);

    hll.clear();
    assert!(hll.is_empty());
    assert_eq!(estimate(&hll), 0.0);
    assert_eq!(hll.precision(), 12);
    assert_eq!(hll.num_registers(), 4_096);

    // Reusable: a fresh batch is estimated within a few standard errors.
    for i in 0..2_000u32 {
        hll.insert(&i);
    }
    let error = (estimate(&hll) - 2_000.0).abs() / 2_000.0;
    let standard_error = 1.04 / (hll.num_registers() as f64).sqrt();
    assert!(error < 4.0 * standard_error, "error {error}");
}

#[test]
fn default_uses_precision_14() {
    let hll = HyperLogLog::default();
    assert_eq!(hll.precision(), 14);
    assert_eq!(hll.num_registers(), 16_384);
    assert!(hll.is_empty());
}

#[test]
fn every_supported_precision_has_its_power_of_two_registers() {
    assert_eq!((MIN_PRECISION, MAX_PRECISION), (4, 16));
    for p in 4u8..=16 {
        let hll = HyperLogLog::new(p).unwrap();
        assert_eq!(hll.precision(), p);
        assert_eq!(hll.num_registers(), 1usize << p);
        assert_eq!(hll.registers().len(), 1usize << p);
        assert_eq!(hll.zero_registers(), 1usize << p);
    }
    for p in (0u8..4).chain(17..=255) {
        assert_eq!(
            HyperLogLog::new(p).unwrap_err(),
            HyperLogLogError::PrecisionOutOfRange { requested: p }
        );
    }
}

#[test]
fn a_hash_raises_one_register_to_its_rank() {
    // 0101 selects register 5; the other bits start 0001, so the rank is 4.
    let hll = with_hashes(4, &[0x5100_0000_0000_0000]);
    for (i, &r) in hll.registers().iter().enumerate() {
        assert_eq!(r, if i == 5 { 4 } else { 0 });
    }
    assert_eq!(hll.zero_registers(), 15);
}

#[test]
fn ranks_at_both_ends() {
    // The bit right after the selector is 1.
    assert_eq!(with_hashes(4, &[0x0800_0000_0000_0000]).registers()[0], 1);
    assert_eq!(with_hashes(16, &[0xffff_8000_0000_0000]).registers()[65_535], 1);
    // Only the last bit is 1.
    assert_eq!(with_hashes(4, &[1]).registers()[0], 60);
    assert_eq!(with_hashes(16, &[1]).registers()[0], 48);
    // No bit after the selector is 1.
    assert_eq!(with_hashes(4, &[0]).registers()[0], 61);
    assert_eq!(with_hashes(4, &[0xf000_0000_0000_0000]).registers()[15], 61);
    assert_eq!(with_hashes(16, &[0x0001_0000_0000_0000]).registers()[1], 49);
}

#[test]
fn a_register_keeps_its_maximum() {
    let mut hll = HyperLogLog::new(4).unwrap();
    hll.insert_hash(0x0100_0000_0000_0000);
    assert_eq!(hll.registers()[0], 4);
    hll.insert_hash(0x0800_0000_0000_0000);
    assert_eq!(hll.registers()[0], 4);
    hll.insert_hash(0x0010_0000_0000_0000);
    assert_eq!(hll.registers()[0], 8);
    assert_eq!(hll.zero_registers(), 15);
}

#[test]
fn order_and_repetition_leave_no_trace() {
    let hashes = stream(1, 300);
    let mut shuffled: Vec<u64> = hashes.iter().rev().copied().collect();
    shuffled.extend_from_slice(&hashes[..120]);
    assert_eq!(
        with_hashes(6, &hashes).registers(),
        with_hashes(6, &shuffled).registers()
    );
}

#[test]
fn merging_is_inserting_everything_into_one() {
    let xs = stream(2, 200);
    let ys = stream(3, 200);
    let both: Vec<u64> = xs.iter().chain(ys.iter()).copied().collect();
    let mut a = with_hashes(7, &xs);
    let b = with_hashes(7, &ys);
    assert_eq!(a.merge(&b), Ok(()));
    assert_eq!(a.registers(), with_hashes(7, &both).registers());

    // The other way round gives the same, and once more changes nothing.
    let mut c = b.clone();
    assert_eq!(c.merge(&with_hashes(7, &xs)), Ok(()));
    assert_eq!(a.registers(), c.registers());
    assert_eq!(c.merge(&b), Ok(()));
    assert_eq!(a.registers(), c.registers());
}

#[test]
fn merging_partial_sketches_works_in_any_grouping() {
    let a = with_hashes(5, &stream(4, 40));
    let b = with_hashes(5, &stream(5, 40));
    let c = with_hashes(5, &stream(6, 40));
    let mut left = a.clone();
    left.merge(&b).unwrap();
    left.merge(&c).unwrap();
    let mut bc = b.clone();
    bc.merge(&c).unwrap();
    let mut right = a.clone();
    right.merge(&bc).unwrap();
    assert_eq!(left.registers(), right.registers());
}

#[test]
fn merging_an_empty_sketch_changes_nothing() {
    let a = with_hashes(5, &stream(7, 40));
    let mut merged = a.clone();
    merged.merge(&HyperLogLog::new(5).unwrap()).unwrap();
    assert_eq!(a.registers(), merged.registers());
}

#[test]
fn merged_items_are_those_of_both() {
    let mut a = HyperLogLog::new(12).unwrap();
    let mut b = HyperLogLog::new(12).unwrap();
    let mut both = HyperLogLog::new(12).unwrap();
    for i in 0..500 {
        a.insert(&format!("a-{i}"));
        both.insert(&format!("a-{i}"));
    }
    for i in 0..500 {
        b.insert(&format!("b-{i}"));
        both.insert(&format!("b-{i}"));
    }
    a.merge(&b).unwrap();
    assert_eq!(a.registers(), both.registers());
    assert!((estimate(&a) - 1000.0).abs() / 1000.0 < 0.1);
}

#[test]
fn an_item_known_before_a_merge_changes_nothing_after_it() {
    let mut a = HyperLogLog::new(6).unwrap();
    let mut b = with_hashes(6, &stream(11, 60));
    a.insert("known");
    b.merge(&a).unwrap();
    let merged = b.registers().to_vec();
    b.insert("known");
    assert_eq!(b.registers(), &merged[..]);
}

#[test]
fn only_distinct_items_count() {
    let mut once = HyperLogLog::new(6).unwrap();
    let mut often = HyperLogLog::new(6).unwrap();
    for i in 0..80u32 {
        once.insert(&i);
    }
    for i in (0..80u32).rev().chain(0..40) {
        often.insert(&i);
    }
    assert_eq!(once.registers(), often.registers());
}

#[test]
fn unsized_items_merge_and_repeat_like_any_other() {
    let words = ["one", "two", "three", "two", "one"];
    let mut all = HyperLogLog::new(6).unwrap();
    for word in words {
        all.insert(word);
    }
    let mut distinct = HyperLogLog::new(6).unwrap();
    for word in ["three", "two"] {
        distinct.insert(word);
    }
    let mut other = HyperLogLog::new(6).unwrap();
    other.insert("one");
    distinct.merge(&other).unwrap();
    assert_eq!(all.registers(), distinct.registers());

    let bytes: &[u8] = &[1, 2, 3];
    all.insert(bytes);
    let before = all.registers().to_vec();
    all.insert(bytes);
    assert_eq!(all.registers(), &before[..]);
}

#[test]
fn a_refused_merge_says_what_was_to_go_into_what() {
    let mut a = HyperLogLog::new(10).unwrap();
    let b = HyperLogLog::new(12).unwrap();
    assert_eq!(
        a.merge(&b).unwrap_err().message(),
        "cannot merge HyperLogLog with p = 12 into one with p = 10; precisions must match"
    );
}

#[test]
fn a_refused_merge_changes_nothing() {
    let mut a = with_hashes(10, &stream(8, 50));
    let before = a.registers().to_vec();
    let b = with_hashes(9, &stream(9, 50));
    assert_eq!(
        a.merge(&b),
        Err(HyperLogLogError::PrecisionMismatch { self_p: 10, other_p: 9 })
    );
    assert_eq!(a.precision(), 10);
    assert_eq!(a.registers(), &before[..]);
}

#[test]
fn clearing_gives_back_the_new_state() {
    let mut hll = with_hashes(8, &stream(10, 400));
    assert!(!hll.is_empty());
    hll.clear();
    assert_eq!(hll.registers(), HyperLogLog::new(8).unwrap().registers());
    assert_eq!(hll.precision(), 8);
    assert_eq!(hll.zero_registers(), 256);
}

#[test]
fn a_clone_is_independent() {
    let original = with_hashes(4, &[1, 2, 3]);
    let mut copy = original.clone();
    assert_eq!(copy.precision(), 4);
    assert_eq!(copy.num_registers(), 16);
    assert_eq!(copy.registers(), original.registers());
    copy.clear();
    assert!(copy.is_empty());
    assert!(!original.is_empty());
}

#[test]
fn items_are_hashed_with_the_default_hasher() {
    let mut hll = HyperLogLog::new(14).unwrap();
    let mut expected = HyperLogLog::new(14).unwrap();
    for item in ["hello", "world", "x"] {
        hll.insert(item);
        let mut hasher = DefaultHasher::new();
        item.hash(&mut hasher);
        expected.insert_hash(hasher.finish());
    }
    assert!(!hll.is_empty());
    assert_eq!(hll.registers(), expected.registers());
}

#[test]
fn distinct_items_spread_over_the_registers() {
    let mut hll = HyperLogLog::new(10).unwrap();
    for i in 0..100u64 {
        hll.insert(&i);
    }
    let used = hll.num_registers() - hll.zero_registers();
    assert!(used > 50 && used <= 100, "{used} registers in use");
}

#[test]
fn messages_name_the_precisions() {
    assert_eq!(
        HyperLogLogError::PrecisionOutOfRange { requested: 3 }.message(),
        "precision p = 3 is out of range; must be between 4 and 16 inclusive"
    );
    assert_eq!(
        HyperLogLogError::PrecisionOutOfRange { requested: 205 }.message(),
        "precision p = 205 is out of range; must be between 4 and 16 inclusive"
    );
    assert_eq!(
        HyperLogLogError::PrecisionMismatch { self_p: 10, other_p: 12 }.message(),
        "cannot merge HyperLogLog with p = 12 into one with p = 10; precisions must match"
    );
}

#[test]
fn a_thousand_users_are_estimated_closely() {
    let mut hll = HyperLogLog::new(14).unwrap();
    for i in 0..1_000 {
        hll.insert(&format!("user-{i}"));
    }
    assert!((estimate(&hll) - 1000.0).abs() / 1000.0 < 0.05);
}

#[test]
fn references_are_items_too() {
    let mut hll = HyperLogLog::new(10).unwrap();
    hll.insert(&"hello");
    hll.insert(&"world");
    assert!(estimate(&hll) > 0.0);

    let mut same = HyperLogLog::new(10).unwrap();
    same.insert("hello");
    same.insert(&String::from("world"));
    assert_eq!(hll.registers(), same.registers());
}

#[test]
fn a_default_sketch_counts_and_clears() {
    let mut hll = HyperLogLog::default();
    for i in 0..50_000 {
        hll.insert(&i);
    }
    assert!((estimate(&hll) - 50_000.0).abs() < 4.0 * 50_000.0 * 1.04 / 128.0);
    hll.clear();
    assert!(hll.is_empty());
}
