use poem_api::daily::{fnv1a, stable_index};
use poem_api::handlers::poem::daily_offset;

#[test]
fn stable_index_is_deterministic() {
    assert_eq!(
        stable_index("2026-09-05", 100),
        stable_index("2026-09-05", 100)
    );
}

#[test]
fn stable_index_stays_within_bounds() {
    for date in ["2026-01-01", "2026-06-15", "2026-12-31"] {
        let idx = stable_index(date, 100);
        assert!(idx < 100, "index {idx} out of bounds");
    }
}

#[test]
fn stable_index_zero_total_is_safe() {
    assert_eq!(stable_index("2026-09-05", 0), 0);
}

#[test]
fn fnv1a_known_values() {
    // Published FNV-1a 64-bit test vectors.
    assert_eq!(fnv1a(b""), 0xcbf2_9ce4_8422_2325);
    assert_eq!(fnv1a(b"a"), 0xaf63_dc4c_8601_ec8c);
    assert_eq!(fnv1a(b"foobar"), 0x8594_4171_f739_67e8);
}

#[test]
fn stable_index_is_hash_modulo_total() {
    let h = fnv1a("2026-09-05".as_bytes());
    assert_eq!(stable_index("2026-09-05", 7), (h % 7) as usize);
    assert_eq!(stable_index("2026-09-05", 1), 0);
}

#[test]
fn daily_offset_matches_stable_index() {
    assert_eq!(daily_offset("2026-09-05", 116), stable_index("2026-09-05", 116) as i64);
    assert_eq!(daily_offset("2026-09-05", 0), 0);
}
