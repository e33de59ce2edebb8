//! The memory allocator policy: jemalloc on Linux with the GNU C library,
//! the system allocator elsewhere, and jemalloc's default settings.
use vstd::prelude::*;

verus! {

/// The `MALLOC_CONF` jemalloc runs with by default: background purging and
/// half-second decay, so that memory returns to the system soon after a
/// burst.
pub const DEFAULT_JEMALLOC_MALLOC_CONF: &'static str =
    "background_thread:true,dirty_decay_ms:500,muzzy_decay_ms:500";

/// The allocator a build uses: `jemalloc` for a Linux GNU target, `system`
/// otherwise.
pub fn allocator_for_target(linux_gnu: bool) -> (r: &'static str)
    ensures
        r@ == (if linux_gnu {
            "jemalloc"@
        } else {
            "system"@
        }),
{
    if linux_gnu {
        "jemalloc"
    } else {
        "system"
    }
}

} // verus!
