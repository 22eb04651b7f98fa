//! Housekeeping of a group folder: when to archive an overgrown memory file
//! and when a log file is old enough to delete. The file system work stays
//! with the caller; these types decide.

use vstd::prelude::*;
use crate::memory::older_than;
use crate::text::{owned, str_eq};

verus! {

broadcast use vstd::string::group_string_axioms;

/// Lines a memory file may hold before it is archived.
pub const DEFAULT_LINE_THRESHOLD: usize = 200;

/// Days a log file is kept.
pub const DEFAULT_MAX_AGE_DAYS: i64 = 90;

/// Number of line breaks in `s`.
pub open spec fn newlines(s: Seq<char>) -> nat
    decreases s.len(),
{
    if s.len() == 0 {
        0
    } else if s.last() == '\n' {
        newlines(s.drop_last()) + 1
    } else {
        newlines(s.drop_last())
    }
}

/// Number of lines of `s` as `str::lines` counts them: one per line break,
/// and one more for text after the last break.
pub open spec fn line_count(s: Seq<char>) -> nat {
    if s.len() > 0 && s.last() != '\n' {
        newlines(s) + 1
    } else {
        newlines(s)
    }
}

/// Decides when the memory file of a group is archived.
#[derive(Debug, Clone)]
pub struct ContentArchiver {
    pub threshold_lines: usize,
    pub archive_dir: String,
}

impl ContentArchiver {
    pub fn new(archive_dir: &str) -> (r: Self)
        ensures
            r.threshold_lines == DEFAULT_LINE_THRESHOLD,
            r.archive_dir@ == archive_dir@,
    {
        ContentArchiver { threshold_lines: DEFAULT_LINE_THRESHOLD, archive_dir: owned(archive_dir) }
    }

    pub fn with_threshold(self, threshold: usize) -> (r: Self)
        ensures
            r.threshold_lines == threshold,
            r.archive_dir == self.archive_dir,
    {
        ContentArchiver { threshold_lines: threshold, archive_dir: self.archive_dir }
    }

    /// A file is archived when it is named `MEMORY.md` and holds more lines
    /// than the threshold.
    pub fn should_archive(&self, file_name: &str, lines: usize) -> (r: bool)
        ensures
            r == (file_name@ == "MEMORY.md"@ && lines > self.threshold_lines),
    {
        str_eq(file_name, "MEMORY.md") && lines > self.threshold_lines
    }

    /// Number of lines of `content`.
    pub fn count_lines(&self, content: &str) -> (r: usize)
        ensures
            r == line_count(content@),
    {
        let n = content.unicode_len();
        let mut count: usize = 0;
        let mut i: usize = 0;
        while i < n
            invariant
                n == content@.len(),
                i <= n,
                count == newlines(content@.subrange(0, i as int)),
                count <= i,
                i > 0 && content@[i - 1] != '\n' ==> count < i,
            decreases n - i,
        {
            assert(content@.subrange(0, i + 1).drop_last() =~= content@.subrange(0, i as int));
            if content.get_char(i) == '\n' {
                count = count + 1;
            }
            i = i + 1;
        }
        assert(content@ =~= content@.subrange(0, n as int));
        if n > 0 && content.get_char(n - 1) != '\n' {
            count = count + 1;
        }
        count
    }
}

/// Decides which log files are old enough to delete.
#[derive(Debug, Clone)]
pub struct LogCleaner {
    pub max_age_days: i64,
    pub log_dir: String,
}

impl LogCleaner {
    pub fn new(log_dir: &str) -> (r: Self)
        ensures
            r.max_age_days == DEFAULT_MAX_AGE_DAYS,
            r.log_dir@ == log_dir@,
    {
        LogCleaner { max_age_days: DEFAULT_MAX_AGE_DAYS, log_dir: owned(log_dir) }
    }

    pub fn with_max_age(self, days: i64) -> (r: Self)
        ensures
            r.max_age_days == days,
            r.log_dir == self.log_dir,
    {
        LogCleaner { max_age_days: days, log_dir: self.log_dir }
    }

    /// A regular file last modified more than `max_age_days` days before
    /// `now` is deleted; one whose time is unknown is kept.
    pub fn should_delete(&self, is_file: bool, modified: Option<i64>, now: i64) -> (r: bool)
        ensures
            r == (is_file && modified.is_some() && older_than(modified.unwrap(), now, self.max_age_days)),
    {
        if !is_file {
            return false;
        }
        match modified {
            Some(m) => crate::memory::age_exceeds(m, now, self.max_age_days),
            None => false,
        }
    }
}

/// The archiver and the cleaner of a maintenance run.
pub struct MaintenanceScheduler {
    pub archiver: ContentArchiver,
    pub cleaner: LogCleaner,
}

impl MaintenanceScheduler {
    pub fn new(archiver: ContentArchiver, cleaner: LogCleaner) -> (r: Self)
        ensures
            r.archiver == archiver,
            r.cleaner == cleaner,
    {
        MaintenanceScheduler { archiver, cleaner }
    }
}

/// Where a memory file was archived to.
#[derive(Debug, Clone)]
pub struct ArchiveRecord {
    pub original_path: String,
    pub archive_path: String,
    pub line_count: usize,
}

/// What one maintenance run of a group folder did.
#[derive(Debug, Clone)]
pub struct MaintenanceReport {
    pub archives: Vec<ArchiveRecord>,
    pub cleaned: usize,
    pub errors: Vec<String>,
    pub executed_at: String,
}

} // verus!
