//! Accounting for image blobs held in memory.
//!
//! A blob stays in memory ("inline") only while it fits the per-blob limit,
//! the per-request budget and what is left of the global hot budget;
//! otherwise it goes to a spill file. This module keeps the counters and
//! makes those decisions; reading and writing the bytes is done by the
//! caller.
use vstd::prelude::*;

use crate::text::{concat, decimal, u64_to_decimal};

verus! {

#[derive(Clone, Debug, PartialEq, Eq)]
pub struct BlobRuntimeConfig {
    pub inline_max_bytes: u64,
    pub request_hot_budget_bytes: u64,
    pub global_hot_budget_bytes: u64,
    /// The directory that spill files go to.
    pub spill_dir: String,
}

#[derive(Clone, Debug, PartialEq, Eq)]
pub struct BlobMeta {
    pub mime_type: String,
    pub size_bytes: u64,
}

#[derive(Clone, Copy, Debug, Default, PartialEq, Eq)]
pub struct BlobRuntimeStatsSnapshot {
    pub spill_count: u64,
    pub spill_bytes_total: u64,
}

/// The counters of the blob store.
#[derive(Debug)]
pub struct BlobRuntime {
    cfg: BlobRuntimeConfig,
    next_id: u64,
    global_hot_bytes: u64,
    spill_count: u64,
    spill_bytes_total: u64,
}

/// The bytes a spill file name takes: `blob-{id}.bin`.
pub open spec fn spill_file_name(id: u64) -> Seq<char> {
    "blob-"@ + decimal(id as nat) + ".bin"@
}

/// The path that `Path::join` makes of a directory and a file name.
pub uninterp spec fn joined_path(dir: Seq<char>, name: Seq<char>) -> Seq<char>;

/// Calls `std::path::Path::join` and reads the result back as text; the
/// path is named `joined_path`. The directory comes from configuration
/// text and the name is ASCII, so the result is valid UTF-8.
#[verifier::external_body]
fn join_path(dir: &str, name: &str) -> (r: String)
    ensures
        r@ == joined_path(dir@, name@),
{
    std::path::Path::new(dir).join(name).to_string_lossy().into_owned()
}

impl BlobRuntime {
    pub closed spec fn config(&self) -> BlobRuntimeConfig {
        self.cfg
    }

    /// Bytes held in memory, over all requests.
    pub closed spec fn hot_bytes(&self) -> u64 {
        self.global_hot_bytes
    }

    /// The identifier the next blob gets.
    pub closed spec fn upcoming_id(&self) -> u64 {
        self.next_id
    }

    pub closed spec fn spills(&self) -> (u64, u64) {
        (self.spill_count, self.spill_bytes_total)
    }

    pub fn new(cfg: BlobRuntimeConfig) -> (r: Self)
        ensures
            r.config() == cfg,
            r.hot_bytes() == 0,
            r.upcoming_id() == 1,
            r.spills() == (0u64, 0u64),
    {
        BlobRuntime { cfg, next_id: 1, global_hot_bytes: 0, spill_count: 0, spill_bytes_total: 0 }
    }

    /// Hands out the next blob identifier (identifiers wrap around at the
    /// end of `u64`).
    pub fn next_id(&mut self) -> (r: u64)
        ensures
            r == old(self).upcoming_id(),
            final(self).upcoming_id() == old(self).upcoming_id().wrapping_add(1),
            final(self).hot_bytes() == old(self).hot_bytes(),
            final(self).config() == old(self).config(),
            final(self).spills() == old(self).spills(),
    {
        let id = self.next_id;
        self.next_id = self.next_id.wrapping_add(1);
        id
    }

    /// Reserves room in memory for a blob of `size_bytes`: refused when the
    /// blob is over the per-blob limit or the per-request budget, or when
    /// it would take the hot bytes over the global budget.
    pub fn try_inline_reserve(&mut self, size_bytes: u64) -> (r: bool)
        ensures
            r <==> (size_bytes <= old(self).config().inline_max_bytes && size_bytes <= old(
                self,
            ).config().request_hot_budget_bytes && old(self).hot_bytes() + size_bytes <= old(
                self,
            ).config().global_hot_budget_bytes),
            r ==> final(self).hot_bytes() == old(self).hot_bytes() + size_bytes,
            !r ==> final(self).hot_bytes() == old(self).hot_bytes(),
            final(self).config() == old(self).config(),
            final(self).upcoming_id() == old(self).upcoming_id(),
            final(self).spills() == old(self).spills(),
    {
        if size_bytes > self.cfg.inline_max_bytes || size_bytes > self.cfg.request_hot_budget_bytes {
            return false;
        }
        let next = match self.global_hot_bytes.checked_add(size_bytes) {
            Some(next) => next,
            None => {
                return false;
            },
        };
        if next > self.cfg.global_hot_budget_bytes {
            return false;
        }
        self.global_hot_bytes = next;
        true
    }

    /// Gives back the memory of an inline blob that is removed.
    pub fn release_inline_bytes(&mut self, size_bytes: u64)
        ensures
            final(self).hot_bytes() == old(self).hot_bytes().wrapping_sub(size_bytes),
            final(self).config() == old(self).config(),
            final(self).upcoming_id() == old(self).upcoming_id(),
            final(self).spills() == old(self).spills(),
    {
        self.global_hot_bytes = self.global_hot_bytes.wrapping_sub(size_bytes);
    }

    /// Counts one more spilled blob of `size_bytes`.
    pub fn record_spill(&mut self, size_bytes: u64)
        ensures
            final(self).spills() == (
                old(self).spills().0.wrapping_add(1),
                old(self).spills().1.wrapping_add(size_bytes),
            ),
            final(self).hot_bytes() == old(self).hot_bytes(),
            final(self).config() == old(self).config(),
            final(self).upcoming_id() == old(self).upcoming_id(),
    {
        self.spill_count = self.spill_count.wrapping_add(1);
        self.spill_bytes_total = self.spill_bytes_total.wrapping_add(size_bytes);
    }

    pub fn stats_snapshot(&self) -> (r: BlobRuntimeStatsSnapshot)
        ensures
            (r.spill_count, r.spill_bytes_total) == self.spills(),
    {
        BlobRuntimeStatsSnapshot {
            spill_count: self.spill_count,
            spill_bytes_total: self.spill_bytes_total,
        }
    }

    pub fn hot_bytes_now(&self) -> (r: u64)
        ensures
            r == self.hot_bytes(),
    {
        self.global_hot_bytes
    }

    /// The most bytes a streamed blob may collect in memory before it goes
    /// to a spill file.
    pub fn inline_stream_limit(&self) -> (r: u64)
        ensures
            r == (if self.config().inline_max_bytes <= self.config().request_hot_budget_bytes {
                self.config().inline_max_bytes
            } else {
                self.config().request_hot_budget_bytes
            }),
    {
        if self.cfg.inline_max_bytes <= self.cfg.request_hot_budget_bytes {
            self.cfg.inline_max_bytes
        } else {
            self.cfg.request_hot_budget_bytes
        }
    }

    /// The spill file of blob `id`: `blob-{id}.bin` in the spill directory.
    pub fn spill_path(&self, id: u64) -> (r: String)
        ensures
            r@ == joined_path(self.config().spill_dir@, spill_file_name(id)),
    {
        let n = u64_to_decimal(id);
        let a = concat("blob-", n.as_str());
        let name = concat(a.as_str(), ".bin");
        join_path(self.cfg.spill_dir.as_str(), name.as_str())
    }
}

/// What to do with a chunk read from a streamed blob.
#[derive(Clone, Copy, Debug, PartialEq, Eq, Structural)]
pub enum ChunkAction {
    /// Keep the chunk in the memory buffer.
    Buffer,
    /// Open the spill file, move the buffer there, then write the chunk.
    StartSpill,
    /// Write the chunk to the spill file already open.
    WriteToFile,
}

/// The decision `store_stream` makes for each chunk: once spilling, keep
/// writing to the file; otherwise buffer while the total stays within the
/// limit.
pub fn stream_chunk_action(spilling: bool, buffered: u64, read: u64, inline_limit: u64) -> (r:
    ChunkAction)
    ensures
        r == (if spilling {
            ChunkAction::WriteToFile
        } else if buffered + read <= inline_limit {
            ChunkAction::Buffer
        } else {
            ChunkAction::StartSpill
        }),
{
    if spilling {
        ChunkAction::WriteToFile
    } else if buffered as u128 + read as u128 <= inline_limit as u128 {
        ChunkAction::Buffer
    } else {
        ChunkAction::StartSpill
    }
}

/// A reservation followed by the release of the same size leaves the hot
/// bytes as they were.
pub proof fn reserve_then_release_restores(
    before: BlobRuntime,
    reserved: BlobRuntime,
    released: BlobRuntime,
    size_bytes: u64,
)
    requires
        reserved.hot_bytes() == before.hot_bytes() + size_bytes,
        released.hot_bytes() == reserved.hot_bytes().wrapping_sub(size_bytes),
    ensures
        released.hot_bytes() == before.hot_bytes(),
{
}

/// Reservations never take the hot bytes over the global budget: from a
/// state within budget, a reservation that succeeds stays within it, and
/// one that fails changes nothing.
pub proof fn reservations_respect_the_global_budget(
    before: BlobRuntime,
    after: BlobRuntime,
    size_bytes: u64,
    granted: bool,
)
    requires
        before.hot_bytes() <= before.config().global_hot_budget_bytes,
        after.config() == before.config(),
        granted <==> (size_bytes <= before.config().inline_max_bytes && size_bytes
            <= before.config().request_hot_budget_bytes && before.hot_bytes() + size_bytes
            <= before.config().global_hot_budget_bytes),
        granted ==> after.hot_bytes() == before.hot_bytes() + size_bytes,
        !granted ==> after.hot_bytes() == before.hot_bytes(),
    ensures
        after.hot_bytes() <= after.config().global_hot_budget_bytes,
{
}

} // verus!
