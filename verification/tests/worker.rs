use dnsd::worker::effective_worker_count;

#[test]
fn auto_sentinel_maps_to_cpu_count() {
    for cap in [1usize, 4, 64] {
        assert_eq!(effective_worker_count(Some(0), None, cap), cap);
    }
}

#[test]
fn unset_defaults_to_single_worker() {
    assert_eq!(effective_worker_count(None, None, 8), 1);
}

#[test]
fn explicit_value_passes_through_clamped() {
    for cap in [1usize, 8] {
        assert_eq!(effective_worker_count(Some(2), None, cap), 2usize.min(cap));
        assert_eq!(effective_worker_count(Some(9999), None, cap), cap);
    }
}

#[test]
fn environment_overrides_the_configuration() {
    assert_eq!(effective_worker_count(Some(2), Some("3"), 8), 3);
    assert_eq!(effective_worker_count(None, Some("0"), 8), 8);
    // Unreadable values are passed over.
    assert_eq!(effective_worker_count(Some(2), Some("many"), 8), 2);
    assert_eq!(effective_worker_count(Some(2), Some(""), 8), 2);
    assert_eq!(effective_worker_count(Some(2), Some("4294967296"), 8), 2);
}
