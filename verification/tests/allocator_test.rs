#[test]
fn jemalloc_default_decay_matches_approved_value() {
    assert_eq!(
        rust_sync_proxy::allocator::DEFAULT_JEMALLOC_MALLOC_CONF,
        "background_thread:true,dirty_decay_ms:500,muzzy_decay_ms:500"
    );
}

#[test]
fn allocator_policy_picks_jemalloc_only_for_linux_gnu() {
    assert_eq!(rust_sync_proxy::allocator::allocator_for_target(true), "jemalloc");
    assert_eq!(rust_sync_proxy::allocator::allocator_for_target(false), "system");
}
