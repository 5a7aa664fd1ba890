//! Segment compaction: which indexes get their segments merged, and how
//! often the worker looks.
use vstd::prelude::*;

use crate::partition::{path_push, push_path};
use crate::settings::{opt_view, u64_setting, u64_setting_value, usize_setting, usize_setting_value};
use crate::text::{chars_of, string_from_chars};

verus! {

/// The seconds between two compaction cycles when no setting says
/// otherwise.
pub const DEFAULT_COMPACTION_INTERVAL_SECS: u64 = 300;

/// The fewest segments an index must have for its segments to be merged,
/// when no setting says otherwise.
pub const DEFAULT_MERGE_MIN_SEGMENTS: usize = 10;

/// Periodically merges the segments of every index under
/// `<data_dir>/indexes/`.
pub struct CompactionWorker {
    pub data_dir: String,
    pub interval_secs: u64,
    pub min_segments: usize,
}

impl CompactionWorker {
    /// A worker over `data_dir`, configured by the raw settings for the
    /// interval (seconds) and the minimum segment count; a missing or
    /// unparsable setting takes its default.
    pub fn new(data_dir: String, interval_setting: Option<&str>, min_segments_setting: Option<&str>) -> (r: Self)
        ensures
            r.data_dir == data_dir,
            r.interval_secs == u64_setting_value(opt_view(interval_setting), DEFAULT_COMPACTION_INTERVAL_SECS),
            r.min_segments == usize_setting_value(opt_view(min_segments_setting), DEFAULT_MERGE_MIN_SEGMENTS),
    {
        CompactionWorker {
            data_dir,
            interval_secs: u64_setting(interval_setting, DEFAULT_COMPACTION_INTERVAL_SECS),
            min_segments: usize_setting(min_segments_setting, DEFAULT_MERGE_MIN_SEGMENTS),
        }
    }

    /// The directory whose subdirectories are the indexes to compact.
    pub fn indexes_dir(&self) -> (r: String)
        ensures
            r@ == path_push(self.data_dir@, "indexes"@),
    {
        let mut p = chars_of(self.data_dir.as_str());
        push_path(&mut p, "indexes");
        string_from_chars(p.as_slice())
    }

    /// Whether an index with `segment_count` segments is merged: when it has
    /// at least the minimum.
    pub fn should_compact(&self, segment_count: usize) -> (r: bool)
        ensures
            r == (segment_count >= self.min_segments),
    {
        segment_count >= self.min_segments
    }
}

} // verus!
