//! The processing of one comic file as a sequence of steps.
//!
//! The caller does the outside work (reading sizes, extracting, converting
//! images, writing the archive, renaming files) and reports each result as an
//! event; [`process_comic_file`] decides what comes next.
use vstd::prelude::*;
use crate::archive::{is_name_order, order_by_name};
use crate::models::{ComicFile, FileMode, ProcessingStats};
use crate::paths::{std_file_name, std_join, stem_of};
use crate::processor::{
    compression_is_worthwhile, count_done, count_failed, detail_views, failure_details,
    finalize_output_paths, insufficient_gain_stats, is_output_plan, optimized_stats, parent_dir,
    steps_view, tally_image_outcomes, temp_output_path, worthwhile, FsStep, ImageOutcome,
    ImageTally, OutputPlan, StepView,
};

verus! {

/// The settings that steer the processing of a file.
#[derive(Clone, Copy, Debug)]
pub struct JobSettings {
    /// The minimal saving, in hundredths of a percent, for the optimised
    /// archive to be kept.
    pub min_savings_bp: i64,
    /// How the optimised archive is placed.
    pub file_mode: FileMode,
}

/// Why the processing of a file stops without a report.
#[derive(Clone, Copy, Debug, PartialEq, Eq, Structural)]
pub enum JobError {
    /// The extraction gave no file at all.
    NoFilesExtracted,
    /// The comic's path has no file name to name the output after.
    NoFileName,
    /// An event came that the current step does not wait for.
    UnexpectedEvent,
}

/// Where the processing of a file stands.
#[derive(Debug)]
pub enum ComicJob {
    /// Waiting for the size of the original and the extraction.
    Extracting,
    /// Waiting for the list of extracted files.
    Listing { original_size: u64 },
    /// Waiting for the results of handling the extracted files.
    Converting { original_size: u64 },
    /// Waiting for the optimised archive to be written at `temp_out`.
    Packing { original_size: u64, tally: ImageTally, temp_out: String },
    /// Waiting for the archive to be removed, its savings being insufficient.
    Discarding { stats: ProcessingStats },
    /// Waiting for the archive to be put in place at `destination`.
    Placing { original_size: u64, new_size: u64, tally: ImageTally, destination: String },
    /// Nothing more to do.
    Done,
}

/// A result of outside work, reported to the job.
#[derive(Debug)]
pub enum JobEvent {
    /// The original's size was read and the comic extracted.
    Extracted { original_size: u64 },
    /// The names of the extracted files, as found.
    FilesListed { names: Vec<String> },
    /// The outcome of handling each extracted file.
    ImagesHandled { outcomes: Vec<ImageOutcome> },
    /// The optimised archive was written; its size.
    ArchiveBuilt { size: u64 },
    /// The file-system operations asked for were done.
    StepsDone,
}

/// The outside work asked for next.
#[derive(Debug)]
pub enum JobAction {
    /// List the extracted files.
    ListFiles,
    /// Handle the extracted files (convert the images), in this order of
    /// the listed names.
    HandleFiles { order: Vec<usize> },
    /// Write the optimised archive at `temp_out`, removing any file there first.
    BuildArchive { temp_out: String },
    /// Carry out these file-system operations, in order.
    Apply { steps: Vec<FsStep> },
    /// The processing is over, with this result.
    Finish { result: Result<ProcessingStats, JobError> },
}

/// `tally` counts `outcomes`.
pub open spec fn tallies(tally: ImageTally, outcomes: Seq<ImageOutcome>) -> bool {
    &&& tally.processed == count_done(outcomes)
    &&& tally.skipped == count_failed(outcomes)
    &&& detail_views(tally.skipped_details@) == failure_details(outcomes)
}

/// The report of a file whose archive was dropped for want of savings.
pub open spec fn is_insufficient_report(stats: ProcessingStats, original_size: u64, tally: ImageTally) -> bool {
    &&& stats.original_size == original_size
    &&& stats.compressed_size == original_size
    &&& stats.images_processed == tally.processed
    &&& stats.images_skipped == tally.skipped
    &&& stats.skipped_details == tally.skipped_details
    &&& stats.compression_skipped
    &&& stats.output_path is None
    &&& stats.error_message is None
    &&& stats.status_message matches Some(m) && m@ == "Gain insuffisant"@
}

/// The report of a file whose archive was kept at `destination`.
pub open spec fn is_optimized_report(
    stats: ProcessingStats,
    original_size: u64,
    new_size: u64,
    tally: ImageTally,
    destination: Seq<char>,
) -> bool {
    &&& stats.original_size == original_size
    &&& stats.compressed_size == new_size
    &&& stats.images_processed == tally.processed
    &&& stats.images_skipped == tally.skipped
    &&& stats.skipped_details == tally.skipped_details
    &&& !stats.compression_skipped
    &&& stats.output_path matches Some(p) && p@ == destination
    &&& stats.error_message is None
    &&& stats.status_message is None
}

/// The job has stopped with error `e`.
pub open spec fn stops_with(r: (ComicJob, JobAction), e: JobError) -> bool {
    &&& r.0 is Done
    &&& r.1 matches JobAction::Finish { result: Err(x) } && x == e
}

/// Where the optimised archive of the comic at `path` is built.
pub open spec fn temp_out_of(path: Seq<char>) -> Seq<char> {
    std_join(parent_dir(path), stem_of(path).unwrap() + ".new_tmp"@)
}

/// Decides the next step of processing `comic`, given where the job stands
/// and what the last outside work gave.
///
/// After the extraction the files are listed; none is an error. Otherwise
/// they are handled in order of their names; the outcomes are counted and
/// the optimised archive is written next to the comic. When the savings fall
/// short of the threshold the archive is removed and the report says so;
/// otherwise it is put in place according to the file mode and the report
/// gives its size and path. Any event that does not fit the step stops the job.
pub fn process_comic_file(
    comic: &ComicFile,
    settings: JobSettings,
    job: ComicJob,
    event: JobEvent,
) -> (r: (ComicJob, JobAction))
    ensures
        match (job, event) {
            (ComicJob::Extracting, JobEvent::Extracted { original_size }) => {
                &&& r.0 matches ComicJob::Listing { original_size: o } && o == original_size
                &&& r.1 is ListFiles
            },
            (ComicJob::Listing { original_size }, JobEvent::FilesListed { names }) => if names.len()
                == 0 {
                stops_with(r, JobError::NoFilesExtracted)
            } else {
                &&& r.0 matches ComicJob::Converting { original_size: o } && o == original_size
                &&& r.1 matches JobAction::HandleFiles { order } && is_name_order(names.deep_view(), order@)
            },
            (ComicJob::Converting { original_size }, JobEvent::ImagesHandled { outcomes }) => if std_file_name(
                comic.path@,
            ) is None {
                stops_with(r, JobError::NoFileName)
            } else {
                &&& r.0 matches ComicJob::Packing { original_size: o, tally, temp_out } && o
                    == original_size && tallies(tally, outcomes@) && temp_out@ == temp_out_of(
                    comic.path@,
                )
                &&& r.1 matches JobAction::BuildArchive { temp_out } && temp_out@ == temp_out_of(
                    comic.path@,
                )
            },
            (ComicJob::Packing { original_size, tally, temp_out }, JobEvent::ArchiveBuilt { size }) => {
                if !worthwhile(original_size, size, settings.min_savings_bp) {
                    &&& r.0 matches ComicJob::Discarding { stats } && is_insufficient_report(
                        stats,
                        original_size,
                        tally,
                    )
                    &&& r.1 matches JobAction::Apply { steps } && steps_view(steps@) == seq![
                        StepView::RemoveFile(temp_out@),
                    ]
                } else if std_file_name(comic.path@) is None {
                    stops_with(r, JobError::NoFileName)
                } else {
                    exists|plan: OutputPlan|
                        {
                            &&& is_output_plan(comic.path@, temp_out@, settings.file_mode, plan)
                            &&& r.0 matches ComicJob::Placing {
                                original_size: o,
                                new_size: n,
                                tally: t,
                                destination: d,
                            } && o == original_size && n == size && t == tally && d@
                                == plan.destination@
                            &&& r.1 matches JobAction::Apply { steps } && steps_view(steps@)
                                == steps_view(plan.steps@)
                        }
                }
            },
            (ComicJob::Discarding { stats }, JobEvent::StepsDone) => {
                &&& r.0 is Done
                &&& r.1 matches JobAction::Finish { result: Ok(s) } && s == stats
            },
            (
                ComicJob::Placing { original_size, new_size, tally, destination },
                JobEvent::StepsDone,
            ) => {
                &&& r.0 is Done
                &&& r.1 matches JobAction::Finish { result: Ok(s) } && is_optimized_report(
                    s,
                    original_size,
                    new_size,
                    tally,
                    destination@,
                )
            },
            _ => stops_with(r, JobError::UnexpectedEvent),
        },
{
    match (job, event) {
        (ComicJob::Extracting, JobEvent::Extracted { original_size }) => {
            (ComicJob::Listing { original_size }, JobAction::ListFiles)
        },
        (ComicJob::Listing { original_size }, JobEvent::FilesListed { names }) => {
            if names.len() == 0 {
                (ComicJob::Done, JobAction::Finish { result: Err(JobError::NoFilesExtracted) })
            } else {
                let order = order_by_name(&names);
                (ComicJob::Converting { original_size }, JobAction::HandleFiles { order })
            }
        },
        (ComicJob::Converting { original_size }, JobEvent::ImagesHandled { outcomes }) => {
            let tally = tally_image_outcomes(&outcomes);
            match temp_output_path(comic.path.as_str()) {
                None => (ComicJob::Done, JobAction::Finish { result: Err(JobError::NoFileName) }),
                Some(temp_out) => {
                    let action = JobAction::BuildArchive { temp_out: temp_out.clone() };
                    (ComicJob::Packing { original_size, tally, temp_out }, action)
                },
            }
        },
        (ComicJob::Packing { original_size, tally, temp_out }, JobEvent::ArchiveBuilt { size }) => {
            if !compression_is_worthwhile(original_size, size, settings.min_savings_bp) {
                let mut steps: Vec<FsStep> = Vec::new();
                steps.push(FsStep::RemoveFile { path: temp_out });
                assert(steps_view(steps@) =~= seq![StepView::RemoveFile(temp_out@)]);
                let stats = insufficient_gain_stats(original_size, tally);
                (ComicJob::Discarding { stats }, JobAction::Apply { steps })
            } else {
                match finalize_output_paths(comic, temp_out.as_str(), settings.file_mode) {
                    None => (ComicJob::Done, JobAction::Finish { result: Err(JobError::NoFileName) }),
                    Some(plan) => {
                        let OutputPlan { steps, destination } = plan;
                        (
                            ComicJob::Placing { original_size, new_size: size, tally, destination },
                            JobAction::Apply { steps },
                        )
                    },
                }
            }
        },
        (ComicJob::Discarding { stats }, JobEvent::StepsDone) => {
            (ComicJob::Done, JobAction::Finish { result: Ok(stats) })
        },
        (ComicJob::Placing { original_size, new_size, tally, destination }, JobEvent::StepsDone) => {
            let stats = optimized_stats(original_size, new_size, tally, destination);
            (ComicJob::Done, JobAction::Finish { result: Ok(stats) })
        },
        (_, _) => (ComicJob::Done, JobAction::Finish { result: Err(JobError::UnexpectedEvent) }),
    }
}

/// A job that finishes with a report of insufficient savings leaves the
/// original untouched: the report gives the original size as the size that
/// stands and no output path.
pub proof fn lemma_discarded_keeps_original(stats: ProcessingStats, original_size: u64, tally: ImageTally)
    requires
        is_insufficient_report(stats, original_size, tally),
    ensures
        stats.compressed_size == stats.original_size,
        stats.output_path is None,
        stats.compression_skipped,
{
}

} // verus!
