//! The summary of a run: how each file turned out and the totals.
use vstd::prelude::*;
use crate::models::ProcessingStats;

verus! {

/// Below this many bytes of difference a file counts as unchanged.
pub const NO_GAIN_BYTES: u64 = 1024;

/// How the processing of one file turned out.
#[derive(Clone, Copy, Debug, PartialEq, Eq, Structural)]
pub enum FileOutcome {
    /// The processing failed.
    Failed,
    /// The size changed by less than a kilobyte.
    NoGain,
    /// The file shrank by at least a kilobyte.
    Optimized,
    /// The file grew by at least a kilobyte.
    Grew,
}

/// How a file turned out, from its report. The sizes are compared exactly
/// (the difference of two sizes as floating-point numbers is the same below
/// 2^53 bytes).
pub open spec fn outcome_of(s: ProcessingStats) -> FileOutcome {
    if s.error_message is Some {
        FileOutcome::Failed
    } else if s.original_size < s.compressed_size + NO_GAIN_BYTES && s.compressed_size
        < s.original_size + NO_GAIN_BYTES {
        FileOutcome::NoGain
    } else if s.compressed_size < s.original_size {
        FileOutcome::Optimized
    } else {
        FileOutcome::Grew
    }
}

/// How the processing of a file turned out.
pub fn classify_outcome(s: &ProcessingStats) -> (r: FileOutcome)
    ensures
        r == outcome_of(*s),
{
    if s.error_message.is_some() {
        return FileOutcome::Failed;
    }
    let o = s.original_size;
    let c = s.compressed_size;
    let close = if o >= c {
        o - c < NO_GAIN_BYTES
    } else {
        c - o < NO_GAIN_BYTES
    };
    if close {
        FileOutcome::NoGain
    } else if c < o {
        FileOutcome::Optimized
    } else {
        FileOutcome::Grew
    }
}

/// The totals of a run.
#[derive(Clone, Copy, Debug)]
pub struct RunSummary {
    /// Files reported.
    pub total_files: usize,
    /// Files that shrank.
    pub optimized: usize,
    /// Files that did not change or grew.
    pub not_optimized: usize,
    /// Files whose processing failed.
    pub failed: usize,
    /// Images converted over all files.
    pub images_processed: usize,
    /// Images skipped over all files.
    pub images_skipped: usize,
    /// Sum of the original sizes.
    pub total_original: u64,
    /// Sum of the sizes after processing.
    pub total_compressed: u64,
    /// Bytes saved over the run; none when the files grew overall.
    pub gain_bytes: u64,
}

/// Number of reports with a given outcome.
pub open spec fn count_outcome(stats: Seq<ProcessingStats>, o: FileOutcome) -> nat
    decreases stats.len(),
{
    if stats.len() == 0 {
        0
    } else {
        count_outcome(stats.drop_last(), o) + if outcome_of(stats.last()) == o {
            1nat
        } else {
            0nat
        }
    }
}

/// Sum of the original sizes.
pub open spec fn sum_original(stats: Seq<ProcessingStats>) -> nat
    decreases stats.len(),
{
    if stats.len() == 0 {
        0
    } else {
        sum_original(stats.drop_last()) + stats.last().original_size as nat
    }
}

/// Sum of the sizes after processing.
pub open spec fn sum_compressed(stats: Seq<ProcessingStats>) -> nat
    decreases stats.len(),
{
    if stats.len() == 0 {
        0
    } else {
        sum_compressed(stats.drop_last()) + stats.last().compressed_size as nat
    }
}

/// Sum of the converted images.
pub open spec fn sum_processed(stats: Seq<ProcessingStats>) -> nat
    decreases stats.len(),
{
    if stats.len() == 0 {
        0
    } else {
        sum_processed(stats.drop_last()) + stats.last().images_processed as nat
    }
}

/// Sum of the skipped images.
pub open spec fn sum_skipped(stats: Seq<ProcessingStats>) -> nat
    decreases stats.len(),
{
    if stats.len() == 0 {
        0
    } else {
        sum_skipped(stats.drop_last()) + stats.last().images_skipped as nat
    }
}

/// The sums of a prefix are at most those of the whole list.
proof fn lemma_prefix_sums(stats: Seq<ProcessingStats>, i: int)
    requires
        0 <= i <= stats.len(),
    ensures
        sum_original(stats.subrange(0, i)) <= sum_original(stats),
        sum_compressed(stats.subrange(0, i)) <= sum_compressed(stats),
        sum_processed(stats.subrange(0, i)) <= sum_processed(stats),
        sum_skipped(stats.subrange(0, i)) <= sum_skipped(stats),
    decreases stats.len() - i,
{
    if i < stats.len() {
        lemma_prefix_sums(stats.drop_last(), i);
        assert(stats.drop_last().subrange(0, i) =~= stats.subrange(0, i));
    } else {
        assert(stats.subrange(0, i) =~= stats);
    }
}

/// Every report has exactly one outcome.
pub proof fn lemma_outcomes_partition(stats: Seq<ProcessingStats>)
    ensures
        count_outcome(stats, FileOutcome::Optimized) + count_outcome(stats, FileOutcome::NoGain)
            + count_outcome(stats, FileOutcome::Grew) + count_outcome(stats, FileOutcome::Failed)
            == stats.len(),
    decreases stats.len(),
{
    if stats.len() > 0 {
        lemma_outcomes_partition(stats.drop_last());
    }
}

/// The totals of a run are within the machine's integers.
pub open spec fn sums_fit(stats: Seq<ProcessingStats>) -> bool {
    &&& sum_original(stats) <= u64::MAX
    &&& sum_compressed(stats) <= u64::MAX
    &&& sum_processed(stats) <= usize::MAX
    &&& sum_skipped(stats) <= usize::MAX
}

/// Sums up a run: how many files shrank, did not, or failed, the images
/// handled, and the sizes before and after.
pub fn summarize(stats: &Vec<ProcessingStats>) -> (r: RunSummary)
    requires
        sums_fit(stats@),
    ensures
        r.total_files == stats.len(),
        r.optimized == count_outcome(stats@, FileOutcome::Optimized),
        r.not_optimized == count_outcome(stats@, FileOutcome::NoGain) + count_outcome(
            stats@,
            FileOutcome::Grew,
        ),
        r.failed == count_outcome(stats@, FileOutcome::Failed),
        r.images_processed == sum_processed(stats@),
        r.images_skipped == sum_skipped(stats@),
        r.total_original == sum_original(stats@),
        r.total_compressed == sum_compressed(stats@),
        r.gain_bytes == if r.total_original > r.total_compressed {
            r.total_original - r.total_compressed
        } else {
            0
        },
{
    let mut optimized: usize = 0;
    let mut not_optimized: usize = 0;
    let mut failed: usize = 0;
    let mut images_processed: usize = 0;
    let mut images_skipped: usize = 0;
    let mut total_original: u64 = 0;
    let mut total_compressed: u64 = 0;
    let mut i: usize = 0;
    while i < stats.len()
        invariant
            i <= stats.len(),
            sums_fit(stats@),
            optimized == count_outcome(stats@.subrange(0, i as int), FileOutcome::Optimized),
            not_optimized == count_outcome(stats@.subrange(0, i as int), FileOutcome::NoGain)
                + count_outcome(stats@.subrange(0, i as int), FileOutcome::Grew),
            failed == count_outcome(stats@.subrange(0, i as int), FileOutcome::Failed),
            images_processed == sum_processed(stats@.subrange(0, i as int)),
            images_skipped == sum_skipped(stats@.subrange(0, i as int)),
            total_original == sum_original(stats@.subrange(0, i as int)),
            total_compressed == sum_compressed(stats@.subrange(0, i as int)),
        decreases stats.len() - i,
    {
        let ghost prefix = stats@.subrange(0, i as int);
        let ghost next = stats@.subrange(0, i + 1);
        proof {
            assert(next.drop_last() =~= prefix);
            lemma_prefix_sums(stats@, i + 1);
            lemma_outcomes_partition(prefix);
        }
        let s = &stats[i];
        match classify_outcome(s) {
            FileOutcome::Optimized => {
                optimized = optimized + 1;
            },
            FileOutcome::NoGain => {
                not_optimized = not_optimized + 1;
            },
            FileOutcome::Grew => {
                not_optimized = not_optimized + 1;
            },
            FileOutcome::Failed => {
                failed = failed + 1;
            },
        }
        images_processed = images_processed + s.images_processed;
        images_skipped = images_skipped + s.images_skipped;
        total_original = total_original + s.original_size;
        total_compressed = total_compressed + s.compressed_size;
        i = i + 1;
    }
    assert(stats@.subrange(0, stats.len() as int) =~= stats@);
    let gain_bytes = if total_original > total_compressed {
        total_original - total_compressed
    } else {
        0
    };
    RunSummary {
        total_files: stats.len(),
        optimized,
        not_optimized,
        failed,
        images_processed,
        images_skipped,
        total_original,
        total_compressed,
        gain_bytes,
    }
}

/// Each file of a run is counted once in the summary: as optimised, not
/// optimised or failed.
pub proof fn lemma_summary_counts_every_file(stats: Seq<ProcessingStats>)
    ensures
        count_outcome(stats, FileOutcome::Optimized) + (count_outcome(stats, FileOutcome::NoGain)
            + count_outcome(stats, FileOutcome::Grew)) + count_outcome(stats, FileOutcome::Failed)
            == stats.len(),
{
    lemma_outcomes_partition(stats);
}

} // verus!
