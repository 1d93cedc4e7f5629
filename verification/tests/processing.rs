use rusty_library_shrinker::job::{process_comic_file, ComicJob, JobAction, JobError, JobEvent, JobSettings};
use rusty_library_shrinker::models::{ComicFile, ComicType, FileMode, ProcessingStats};
use rusty_library_shrinker::processor::{
    compression_is_worthwhile, failed_stats, finalize_output_paths, insufficient_gain_stats,
    optimized_stats, output_file_names, placement_plan, progress_position, tally_image_outcomes,
    temp_output_path, FsStep, ImageOutcome, ImageTally,
};
use rusty_library_shrinker::summary::{classify_outcome, summarize, FileOutcome};

fn comic(path: &str) -> ComicFile {
    ComicFile { path: path.to_string(), file_type: ComicType::Cbr }
}

fn rename(from: &str, to: &str) -> FsStep {
    FsStep::Rename { from: from.to_string(), to: to.to_string() }
}

fn failed(name: &str, reason: &str) -> ImageOutcome {
    ImageOutcome::Failed { file_name: name.to_string(), reason: reason.to_string() }
}

fn tally(processed: usize, skipped: usize) -> ImageTally {
    ImageTally { processed, skipped, skipped_details: Vec::new() }
}

#[test]
fn outcomes_are_counted_once_each() {
    let outcomes = vec![
        ImageOutcome::Done,
        failed("p2.jpg", "corrupt"),
        ImageOutcome::Kept,
        ImageOutcome::Done,
        failed("p4.png", "too wide"),
    ];
    let t = tally_image_outcomes(&outcomes);
    assert_eq!(t.processed, 2);
    assert_eq!(t.skipped, 2);
    assert_eq!(t.processed + t.skipped + 1, outcomes.len());
    assert_eq!(
        t.skipped_details,
        vec![("p2.jpg".to_string(), "corrupt".to_string()), ("p4.png".to_string(), "too wide".to_string())]
    );
    assert_eq!(tally_image_outcomes(&Vec::new()), tally(0, 0));
}

#[test]
fn progress_runs_from_thirty_to_eighty() {
    assert_eq!(progress_position(0, 10), 30);
    assert_eq!(progress_position(5, 10), 55);
    assert_eq!(progress_position(10, 10), 80);
    assert_eq!(progress_position(1, 3), 46);
}

#[test]
fn savings_are_judged_against_the_threshold() {
    assert!(compression_is_worthwhile(1000, 950, 500));
    assert!(!compression_is_worthwhile(1000, 951, 500));
    assert!(!compression_is_worthwhile(1000, 1100, 0));
    assert!(compression_is_worthwhile(1000, 1000, 0));
    assert!(compression_is_worthwhile(1000, 1100, -1500));
    assert!(compression_is_worthwhile(0, 0, 500));
    assert!(!compression_is_worthwhile(0, 10, -500));
    assert!(compression_is_worthwhile(u64::MAX, 0, 10000));
    assert!(!compression_is_worthwhile(u64::MAX, 1, i64::MAX));
}

#[test]
fn a_higher_threshold_keeps_fewer_archives() {
    for new in [0u64, 400, 900, 1000, 1200] {
        for bp in [-2000i64, 0, 500, 1000, 6000] {
            if compression_is_worthwhile(1000, new, bp) {
                assert!(compression_is_worthwhile(1000, new, bp - 100));
            }
        }
    }
}

#[test]
fn reports_say_what_happened() {
    let s = insufficient_gain_stats(1000, tally(3, 1));
    assert_eq!(s.compressed_size, 1000);
    assert!(s.compression_skipped);
    assert_eq!(s.output_path, None);
    assert_eq!(s.status_message.as_deref(), Some("Gain insuffisant"));
    let o = optimized_stats(1000, 400, tally(4, 0), "d/C.cbz".to_string());
    assert_eq!(o.compressed_size, 400);
    assert_eq!(o.output_path.as_deref(), Some("d/C.cbz"));
    assert!(!o.compression_skipped);
    let f = failed_stats(77, "boom".to_string());
    assert_eq!((f.original_size, f.compressed_size, f.images_processed), (77, 77, 0));
    assert_eq!(f.error_message.as_deref(), Some("boom"));
}

#[test]
fn output_names_per_mode() {
    assert_eq!(output_file_names("Comic", "cbr", FileMode::Suffix), ("Comic.optimise.cbz".to_string(), None));
    assert_eq!(
        output_file_names("Comic", "cbr", FileMode::Rename),
        ("Comic.cbz".to_string(), Some("Comic.original.cbr".to_string()))
    );
    assert_eq!(output_file_names("Comic", "pdf", FileMode::Replace), ("Comic.cbz".to_string(), None));
}

#[test]
fn placement_follows_the_mode() {
    assert_eq!(placement_plan(FileMode::Suffix, "o", "t", "d", "", false), vec![rename("t", "d")]);
    assert_eq!(placement_plan(FileMode::Rename, "o", "t", "d", "b", false), vec![rename("o", "b"), rename("t", "d")]);
    assert_eq!(
        placement_plan(FileMode::Replace, "o", "t", "d", "", false),
        vec![FsStep::RemoveFile { path: "o".to_string() }, rename("t", "d")]
    );
    assert_eq!(
        placement_plan(FileMode::Replace, "d", "t", "d", "", true),
        vec![FsStep::RemoveIfExists { path: "d".to_string() }, rename("t", "d")]
    );
}

#[test]
fn only_replace_deletes_the_original() {
    let c = comic("books/Saga.pdf");
    for mode in [FileMode::Suffix, FileMode::Rename] {
        let p = finalize_output_paths(&c, "books/Saga.new_tmp", mode).unwrap();
        assert!(p.steps.iter().all(|s| matches!(s, FsStep::Rename { .. })));
        assert_eq!(p.steps.last(), Some(&rename("books/Saga.new_tmp", &p.destination)));
    }
    let suffix = finalize_output_paths(&c, "books/Saga.new_tmp", FileMode::Suffix).unwrap();
    assert!(suffix.steps.iter().all(|s| !matches!(s, FsStep::Rename { from, .. } if from == "books/Saga.pdf")));
    let replace = finalize_output_paths(&c, "books/Saga.new_tmp", FileMode::Replace).unwrap();
    assert_eq!(replace.steps[0], FsStep::RemoveFile { path: "books/Saga.pdf".to_string() });
}

#[test]
fn finalize_plans_the_three_modes() {
    let c = comic("dir/MyComic.cbr");
    let p = finalize_output_paths(&c, "dir/MyComic.new_tmp", FileMode::Suffix).unwrap();
    assert_eq!(p.destination, "dir/MyComic.optimise.cbz");
    assert_eq!(p.steps, vec![rename("dir/MyComic.new_tmp", "dir/MyComic.optimise.cbz")]);
    let p = finalize_output_paths(&c, "dir/MyComic.new_tmp", FileMode::Rename).unwrap();
    assert_eq!(p.destination, "dir/MyComic.cbz");
    assert_eq!(
        p.steps,
        vec![rename("dir/MyComic.cbr", "dir/MyComic.original.cbr"), rename("dir/MyComic.new_tmp", "dir/MyComic.cbz")]
    );
    let p = finalize_output_paths(&c, "dir/MyComic.new_tmp", FileMode::Replace).unwrap();
    assert_eq!(
        p.steps,
        vec![FsStep::RemoveFile { path: "dir/MyComic.cbr".to_string() }, rename("dir/MyComic.new_tmp", "dir/MyComic.cbz")]
    );
    let p = finalize_output_paths(&comic("dir//MyComic.cbz"), "dir/MyComic.new_tmp", FileMode::Replace).unwrap();
    assert_eq!(
        p.steps,
        vec![FsStep::RemoveIfExists { path: "dir/MyComic.cbz".to_string() }, rename("dir/MyComic.new_tmp", "dir/MyComic.cbz")]
    );
    let p = finalize_output_paths(&comic("MyComic"), "MyComic.new_tmp", FileMode::Rename).unwrap();
    assert_eq!(p.steps, vec![rename("MyComic", "MyComic.original."), rename("MyComic.new_tmp", "MyComic.cbz")]);
    assert!(finalize_output_paths(&comic("/"), "x", FileMode::Suffix).is_none());
}

#[test]
fn temporary_archive_sits_next_to_the_comic() {
    assert_eq!(temp_output_path("dir/MyComic.cbr").as_deref(), Some("dir/MyComic.new_tmp"));
    assert_eq!(temp_output_path("MyComic.pdf").as_deref(), Some("MyComic.new_tmp"));
    assert_eq!(temp_output_path("a/.."), None);
}

fn settings(mode: FileMode) -> JobSettings {
    JobSettings { min_savings_bp: 500, file_mode: mode }
}

fn names(list: &[&str]) -> Vec<String> {
    list.iter().map(|s| s.to_string()).collect()
}

#[test]
fn a_job_runs_to_an_optimised_file() {
    let c = comic("dir/C.cbr");
    let s = settings(FileMode::Suffix);
    let (job, action) = process_comic_file(&c, s, ComicJob::Extracting, JobEvent::Extracted { original_size: 1000 });
    assert!(matches!(action, JobAction::ListFiles));
    let (job, action) = process_comic_file(&c, s, job, JobEvent::FilesListed { names: names(&["b.jpg", "a.jpg", "ComicInfo.xml"]) });
    assert!(matches!(action, JobAction::HandleFiles { order } if order == vec![2, 1, 0]));
    let outcomes = vec![ImageOutcome::Done, failed("b.jpg", "bad"), ImageOutcome::Done];
    let (job, action) = process_comic_file(&c, s, job, JobEvent::ImagesHandled { outcomes });
    assert!(matches!(&action, JobAction::BuildArchive { temp_out } if temp_out == "dir/C.new_tmp"));
    let (job, action) = process_comic_file(&c, s, job, JobEvent::ArchiveBuilt { size: 400 });
    assert!(matches!(&action, JobAction::Apply { steps } if *steps == vec![rename("dir/C.new_tmp", "dir/C.optimise.cbz")]));
    let (job, action) = process_comic_file(&c, s, job, JobEvent::StepsDone);
    assert!(matches!(job, ComicJob::Done));
    match action {
        JobAction::Finish { result: Ok(stats) } => {
            assert_eq!(stats.original_size, 1000);
            assert_eq!(stats.compressed_size, 400);
            assert_eq!(stats.images_processed, 2);
            assert_eq!(stats.images_skipped, 1);
            assert_eq!(stats.skipped_details, vec![("b.jpg".to_string(), "bad".to_string())]);
            assert_eq!(stats.output_path.as_deref(), Some("dir/C.optimise.cbz"));
        }
        other => panic!("unexpected {:?}", other),
    }
}

#[test]
fn a_job_without_savings_drops_its_archive() {
    let c = comic("dir/C.cbz");
    let s = settings(FileMode::Replace);
    let job = ComicJob::Packing { original_size: 1000, tally: tally(3, 0), temp_out: "dir/C.new_tmp".to_string() };
    let (job, action) = process_comic_file(&c, s, job, JobEvent::ArchiveBuilt { size: 990 });
    assert!(matches!(&action, JobAction::Apply { steps } if *steps == vec![FsStep::RemoveFile { path: "dir/C.new_tmp".to_string() }]));
    let (_, action) = process_comic_file(&c, s, job, JobEvent::StepsDone);
    match action {
        JobAction::Finish { result: Ok(stats) } => {
            assert!(stats.compression_skipped);
            assert_eq!(stats.compressed_size, 1000);
            assert_eq!(stats.output_path, None);
            assert_eq!(stats.images_processed, 3);
        }
        other => panic!("unexpected {:?}", other),
    }
}

#[test]
fn a_job_stops_on_an_empty_extraction_or_a_stray_event() {
    let c = comic("dir/C.cbz");
    let s = settings(FileMode::Suffix);
    let (job, action) = process_comic_file(&c, s, ComicJob::Listing { original_size: 5 }, JobEvent::FilesListed { names: Vec::new() });
    assert!(matches!(job, ComicJob::Done));
    assert!(matches!(action, JobAction::Finish { result: Err(JobError::NoFilesExtracted) }));
    let (_, action) = process_comic_file(&c, s, ComicJob::Extracting, JobEvent::StepsDone);
    assert!(matches!(action, JobAction::Finish { result: Err(JobError::UnexpectedEvent) }));
    let (_, action) = process_comic_file(&comic("/"), s, ComicJob::Converting { original_size: 5 }, JobEvent::ImagesHandled { outcomes: Vec::new() });
    assert!(matches!(action, JobAction::Finish { result: Err(JobError::NoFileName) }));
}

fn stats(original: u64, compressed: u64, error: Option<&str>) -> ProcessingStats {
    ProcessingStats {
        original_size: original,
        compressed_size: compressed,
        images_processed: 2,
        images_skipped: 1,
        compression_skipped: false,
        output_path: None,
        error_message: error.map(|e| e.to_string()),
        status_message: None,
        skipped_details: Vec::new(),
    }
}

#[test]
fn file_outcomes_use_a_kilobyte_margin() {
    assert_eq!(classify_outcome(&stats(5000, 3000, None)), FileOutcome::Optimized);
    assert_eq!(classify_outcome(&stats(5000, 3976, None)), FileOutcome::Optimized);
    assert_eq!(classify_outcome(&stats(5000, 3977, None)), FileOutcome::NoGain);
    assert_eq!(classify_outcome(&stats(5000, 6023, None)), FileOutcome::NoGain);
    assert_eq!(classify_outcome(&stats(5000, 6024, None)), FileOutcome::Grew);
    assert_eq!(classify_outcome(&stats(5000, 1000, Some("x"))), FileOutcome::Failed);
}

#[test]
fn a_run_is_summed_up() {
    let run = vec![stats(5000, 1000, None), stats(3000, 3000, None), stats(100, 2000, None), stats(50, 50, Some("e"))];
    let s = summarize(&run);
    assert_eq!(s.total_files, 4);
    assert_eq!((s.optimized, s.not_optimized, s.failed), (1, 2, 1));
    assert_eq!(s.optimized + s.not_optimized + s.failed, s.total_files);
    assert_eq!((s.images_processed, s.images_skipped), (8, 4));
    assert_eq!((s.total_original, s.total_compressed, s.gain_bytes), (8150, 6050, 2100));
    let grown = summarize(&vec![stats(100, 5000, None)]);
    assert_eq!(grown.gain_bytes, 0);
}
