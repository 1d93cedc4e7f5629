//! Decisions taken while one comic file is processed: counting the image
//! results, reporting progress, judging the savings, and planning how the
//! optimised archive replaces or joins the original.
use vstd::prelude::*;
use crate::models::{ComicFile, FileMode, ProcessingStats};
use crate::paths::{
    extension_of, path_join, path_parent, paths_equal, stem_and_extension, std_file_name, std_join,
    std_parent, std_path_eq, stem_of,
};
use crate::text::{concat2, concat3};

verus! {

/// The result of handling one extracted file.
#[derive(Clone, Debug, PartialEq, Eq)]
pub enum ImageOutcome {
    /// The image was handled: converted, or left as it is when compression is off.
    Done,
    /// The file is not an image and was kept as it is; it counts as neither.
    Kept,
    /// The image could not be converted.
    Failed {
        /// Name of the image file.
        file_name: String,
        /// What went wrong.
        reason: String,
    },
}

/// The counts gathered from the handling of all extracted files.
#[derive(Clone, Debug, PartialEq, Eq)]
pub struct ImageTally {
    /// Images handled successfully.
    pub processed: usize,
    /// Images that could not be converted.
    pub skipped: usize,
    /// For each image not converted, in the order given: its name and the reason.
    pub skipped_details: Vec<(String, String)>,
}

/// Number of successful outcomes.
pub open spec fn count_done(os: Seq<ImageOutcome>) -> nat
    decreases os.len(),
{
    if os.len() == 0 {
        0
    } else {
        count_done(os.drop_last()) + if os.last() is Done {
            1nat
        } else {
            0nat
        }
    }
}

/// Number of failed outcomes.
pub open spec fn count_failed(os: Seq<ImageOutcome>) -> nat
    decreases os.len(),
{
    if os.len() == 0 {
        0
    } else {
        count_failed(os.drop_last()) + if os.last() is Failed {
            1nat
        } else {
            0nat
        }
    }
}

/// The name and reason of each failed outcome, in order.
pub open spec fn failure_details(os: Seq<ImageOutcome>) -> Seq<(Seq<char>, Seq<char>)>
    decreases os.len(),
{
    if os.len() == 0 {
        Seq::empty()
    } else {
        match os.last() {
            ImageOutcome::Done | ImageOutcome::Kept => failure_details(os.drop_last()),
            ImageOutcome::Failed { file_name, reason } => failure_details(os.drop_last()).push(
                (file_name@, reason@),
            ),
        }
    }
}

/// The text of each pair of a list of details.
pub open spec fn detail_views(d: Seq<(String, String)>) -> Seq<(Seq<char>, Seq<char>)> {
    d.map_values(|p: (String, String)| (p.0@, p.1@))
}

/// Number of files that are not images.
pub open spec fn count_kept(os: Seq<ImageOutcome>) -> nat
    decreases os.len(),
{
    if os.len() == 0 {
        0
    } else {
        count_kept(os.drop_last()) + if os.last() is Kept {
            1nat
        } else {
            0nat
        }
    }
}

/// Every outcome is counted once: as an image handled, an image that failed,
/// or a file that is not an image.
pub proof fn lemma_outcomes_counted(os: Seq<ImageOutcome>)
    ensures
        count_done(os) + count_failed(os) + count_kept(os) == os.len(),
    decreases os.len(),
{
    if os.len() > 0 {
        lemma_outcomes_counted(os.drop_last());
    }
}

/// Counts the successes and failures of the handled files and lists the
/// failures in the order given.
pub fn tally_image_outcomes(outcomes: &Vec<ImageOutcome>) -> (r: ImageTally)
    ensures
        r.processed == count_done(outcomes@),
        r.skipped == count_failed(outcomes@),
        detail_views(r.skipped_details@) == failure_details(outcomes@),
{
    let mut processed: usize = 0;
    let mut skipped: usize = 0;
    let mut details: Vec<(String, String)> = Vec::new();
    let mut i: usize = 0;
    while i < outcomes.len()
        invariant
            i <= outcomes.len(),
            processed == count_done(outcomes@.subrange(0, i as int)),
            skipped == count_failed(outcomes@.subrange(0, i as int)),
            detail_views(details@) == failure_details(outcomes@.subrange(0, i as int)),
        decreases outcomes.len() - i,
    {
        let ghost prefix = outcomes@.subrange(0, i as int);
        let ghost next = outcomes@.subrange(0, i + 1);
        assert(next.drop_last() =~= prefix);
        proof {
            lemma_outcomes_counted(prefix);
        }
        match &outcomes[i] {
            ImageOutcome::Done => {
                processed = processed + 1;
            },
            ImageOutcome::Kept => {},
            ImageOutcome::Failed { file_name, reason } => {
                skipped = skipped + 1;
                details.push((file_name.clone(), reason.clone()));
                assert(detail_views(details@) =~= failure_details(prefix).push(
                    (file_name@, reason@),
                ));
            },
        }
        i = i + 1;
    }
    assert(outcomes@.subrange(0, outcomes.len() as int) =~= outcomes@);
    ImageTally { processed, skipped, skipped_details: details }
}

/// Position of a file's progress bar while its images are handled: from 30
/// to 80 as `done` goes from none to all of `total`.
pub fn progress_position(done: usize, total: usize) -> (r: u64)
    requires
        0 < total,
        done <= total,
        done * 50 <= usize::MAX,
    ensures
        r == 30 + (done * 50) / (total as int),
        30 <= r <= 80,
{
    let step = (done * 50) / total;
    proof {
        let d = done as int;
        let t = total as int;
        assert((d * 50) / t <= 50) by (nonlinear_arith)
            requires
                0 < t,
                d <= t,
        {
            assert(d * 50 <= t * 50);
            assert((t * 50) / t == 50);
        }
    }
    30 + (step as u64)
}

/// Whether the optimised archive is kept: the savings, as a share of the
/// original size, are at least the threshold, given in hundredths of a
/// percent. An empty original is only kept by an empty archive.
pub open spec fn worthwhile(original_size: u64, new_size: u64, min_savings_bp: i64) -> bool {
    if original_size == 0 {
        new_size == 0
    } else {
        (original_size - new_size) * 10000 >= min_savings_bp * original_size
    }
}

/// Judges whether the savings of the optimised archive are sufficient.
///
/// `min_savings_bp` is the minimal saving in hundredths of a percent (500 for
/// 5%). The archive is dropped when `(original - new) / original` is below
/// the threshold; an empty original gives no ratio and is kept only when the
/// archive is empty too.
pub fn compression_is_worthwhile(original_size: u64, new_size: u64, min_savings_bp: i64) -> (r: bool)
    ensures
        r == worthwhile(original_size, new_size, min_savings_bp),
{
    if original_size == 0 {
        return new_size == 0;
    }
    let saved: i128 = (original_size as i128) - (new_size as i128);
    let orig: i128 = original_size as i128;
    let bp: i128 = min_savings_bp as i128;
    proof {
        lemma_product_bounds(bp as int, orig as int, 9223372036854775808, 18446744073709551615);
    }
    saved * 10000 >= bp * orig
}

/// A bounded number times a bounded natural number stays within the product
/// of the bounds.
proof fn lemma_product_bounds(x: int, y: int, bx: int, by: int)
    requires
        -bx <= x <= bx,
        0 <= y <= by,
    ensures
        -(bx * by) <= x * y <= bx * by,
{
    assert(-(bx * by) <= x * y <= bx * by) by (nonlinear_arith)
        requires
            -bx <= x <= bx,
            0 <= y <= by,
    ;
}

/// A higher threshold keeps fewer archives; an archive no larger than the
/// original is kept when no saving is asked; an archive larger than the
/// original is never kept when a saving is asked.
pub proof fn lemma_savings_threshold(original_size: u64, new_size: u64, bp: i64, lower_bp: i64)
    ensures
        worthwhile(original_size, new_size, bp) && lower_bp <= bp ==> worthwhile(
            original_size,
            new_size,
            lower_bp,
        ),
        new_size <= original_size && bp <= 0 ==> worthwhile(original_size, new_size, bp),
        new_size > original_size && bp >= 0 ==> !worthwhile(original_size, new_size, bp),
{
    if original_size > 0 {
        assert(lower_bp <= bp ==> lower_bp * original_size <= bp * original_size) by (nonlinear_arith)
            requires
                original_size > 0,
        ;
        assert(bp <= 0 ==> bp * original_size <= 0) by (nonlinear_arith)
            requires
                original_size > 0,
        ;
        assert(bp >= 0 ==> bp * original_size >= 0) by (nonlinear_arith)
            requires
                original_size > 0,
        ;
    }
}

/// The report of a file whose optimised archive was dropped for want of
/// savings: the original stands, with its size.
pub fn insufficient_gain_stats(original_size: u64, tally: ImageTally) -> (r: ProcessingStats)
    ensures
        r.original_size == original_size,
        r.compressed_size == original_size,
        r.images_processed == tally.processed,
        r.images_skipped == tally.skipped,
        r.skipped_details == tally.skipped_details,
        r.compression_skipped,
        r.output_path is None,
        r.error_message is None,
        r.status_message matches Some(m) && m@ == "Gain insuffisant"@,
{
    ProcessingStats {
        original_size,
        compressed_size: original_size,
        images_processed: tally.processed,
        images_skipped: tally.skipped,
        skipped_details: tally.skipped_details,
        compression_skipped: true,
        output_path: None,
        error_message: None,
        status_message: Some("Gain insuffisant".to_owned()),
    }
}

/// The report of a file whose optimised archive was kept at `output_path`.
pub fn optimized_stats(original_size: u64, new_size: u64, tally: ImageTally, output_path: String) -> (r: ProcessingStats)
    ensures
        r.original_size == original_size,
        r.compressed_size == new_size,
        r.images_processed == tally.processed,
        r.images_skipped == tally.skipped,
        r.skipped_details == tally.skipped_details,
        !r.compression_skipped,
        r.output_path matches Some(p) && p@ == output_path@,
        r.error_message is None,
        r.status_message is None,
{
    ProcessingStats {
        original_size,
        compressed_size: new_size,
        images_processed: tally.processed,
        images_skipped: tally.skipped,
        skipped_details: tally.skipped_details,
        compression_skipped: false,
        output_path: Some(output_path),
        error_message: None,
        status_message: None,
    }
}

/// The report of a file whose processing failed: its size on disk stands for
/// both sizes, and no image counts.
pub fn failed_stats(size: u64, message: String) -> (r: ProcessingStats)
    ensures
        r.original_size == size,
        r.compressed_size == size,
        r.images_processed == 0,
        r.images_skipped == 0,
        r.skipped_details@.len() == 0,
        !r.compression_skipped,
        r.output_path is None,
        r.error_message matches Some(m) && m@ == message@,
        r.status_message is None,
{
    ProcessingStats {
        original_size: size,
        compressed_size: size,
        images_processed: 0,
        images_skipped: 0,
        skipped_details: Vec::new(),
        compression_skipped: false,
        output_path: None,
        error_message: Some(message),
        status_message: None,
    }
}

/// The directory of a comic file: its parent, or `.` when it has none.
pub open spec fn parent_dir(path: Seq<char>) -> Seq<char> {
    match std_parent(path) {
        Some(p) => p,
        None => "."@,
    }
}

/// The directory of a comic file.
fn parent_dir_of(path: &str) -> (r: String)
    ensures
        r@ == parent_dir(path@),
{
    match path_parent(path) {
        Some(p) => p,
        None => ".".to_owned(),
    }
}

/// Where the optimised archive is built before it is put in place: next to
/// the comic, named after its stem with `.new_tmp`. `None` when the path has
/// no file name.
pub fn temp_output_path(comic_path: &str) -> (r: Option<String>)
    ensures
        match r {
            Some(t) => stem_of(comic_path@) matches Some(stem) && t@ == std_join(
                parent_dir(comic_path@),
                stem + ".new_tmp"@,
            ),
            None => std_file_name(comic_path@) is None,
        },
{
    match stem_and_extension(comic_path) {
        None => None,
        Some(se) => {
            let parent = parent_dir_of(comic_path);
            let name = concat2(se.0.as_str(), ".new_tmp");
            Some(path_join(parent.as_str(), name.as_str()))
        },
    }
}

/// A file-system operation that puts the optimised archive in place.
#[derive(Clone, Debug, PartialEq, Eq)]
pub enum FsStep {
    /// Rename `from` to `to`.
    Rename { from: String, to: String },
    /// Remove the file at `path`.
    RemoveFile { path: String },
    /// Remove the file at `path` if there is one.
    RemoveIfExists { path: String },
}

/// The text of a file-system operation.
pub enum StepView {
    Rename(Seq<char>, Seq<char>),
    RemoveFile(Seq<char>),
    RemoveIfExists(Seq<char>),
}

impl View for FsStep {
    type V = StepView;

    open spec fn view(&self) -> StepView {
        match self {
            FsStep::Rename { from, to } => StepView::Rename(from@, to@),
            FsStep::RemoveFile { path } => StepView::RemoveFile(path@),
            FsStep::RemoveIfExists { path } => StepView::RemoveIfExists(path@),
        }
    }
}

/// The text of a list of operations.
pub open spec fn steps_view(steps: Seq<FsStep>) -> Seq<StepView> {
    steps.map_values(|s: FsStep| s@)
}

/// The names the optimised file and the kept original take: for `Suffix`
/// `<stem>.optimise.cbz`; otherwise `<stem>.cbz`, and for `Rename` the
/// original becomes `<stem>.original.<ext>`.
pub open spec fn output_names(stem: Seq<char>, ext: Seq<char>, mode: FileMode) -> (Seq<char>, Option<Seq<char>>) {
    match mode {
        FileMode::Suffix => (stem + ".optimise.cbz"@, None),
        FileMode::Rename => (stem + ".cbz"@, Some(stem + ".original."@ + ext)),
        FileMode::Replace => (stem + ".cbz"@, None),
    }
}

/// The operations that put the archive built at `temp_out` in place at
/// `destination`: in `Rename` mode the original is first moved to `backup`;
/// in `Replace` mode the original is removed, or, when it is the destination
/// itself, whatever stands there.
pub open spec fn placement_steps(
    mode: FileMode,
    original: Seq<char>,
    temp_out: Seq<char>,
    destination: Seq<char>,
    backup: Seq<char>,
    same_path: bool,
) -> Seq<StepView> {
    match mode {
        FileMode::Suffix => seq![StepView::Rename(temp_out, destination)],
        FileMode::Rename => seq![
            StepView::Rename(original, backup),
            StepView::Rename(temp_out, destination),
        ],
        FileMode::Replace => if !same_path {
            seq![StepView::RemoveFile(original), StepView::Rename(temp_out, destination)]
        } else {
            seq![StepView::RemoveIfExists(destination), StepView::Rename(temp_out, destination)]
        },
    }
}

/// The names of the optimised file and, in `Rename` mode, of the kept
/// original, from the stem and extension of the comic's file name.
pub fn output_file_names(stem: &str, ext: &str, mode: FileMode) -> (r: (String, Option<String>))
    ensures
        r.0@ == output_names(stem@, ext@, mode).0,
        match r.1 {
            Some(b) => output_names(stem@, ext@, mode).1 == Some(b@),
            None => output_names(stem@, ext@, mode).1 is None,
        },
{
    match mode {
        FileMode::Suffix => (concat2(stem, ".optimise.cbz"), None),
        FileMode::Rename => (concat2(stem, ".cbz"), Some(concat3(stem, ".original.", ext))),
        FileMode::Replace => (concat2(stem, ".cbz"), None),
    }
}

/// The operations that put the optimised archive in place (see
/// [`placement_steps`]); `same_path` tells whether the original is the
/// destination.
pub fn placement_plan(
    mode: FileMode,
    original: &str,
    temp_out: &str,
    destination: &str,
    backup: &str,
    same_path: bool,
) -> (r: Vec<FsStep>)
    ensures
        steps_view(r@) == placement_steps(mode, original@, temp_out@, destination@, backup@, same_path),
{
    let mut steps: Vec<FsStep> = Vec::new();
    match mode {
        FileMode::Suffix => {},
        FileMode::Rename => {
            steps.push(FsStep::Rename { from: original.to_owned(), to: backup.to_owned() });
        },
        FileMode::Replace => {
            if !same_path {
                steps.push(FsStep::RemoveFile { path: original.to_owned() });
            } else {
                steps.push(FsStep::RemoveIfExists { path: destination.to_owned() });
            }
        },
    }
    steps.push(FsStep::Rename { from: temp_out.to_owned(), to: destination.to_owned() });
    assert(steps_view(steps@) =~= placement_steps(
        mode,
        original@,
        temp_out@,
        destination@,
        backup@,
        same_path,
    ));
    steps
}

/// How the optimised archive is put in place.
#[derive(Clone, Debug)]
pub struct OutputPlan {
    /// The operations, in order.
    pub steps: Vec<FsStep>,
    /// Where the optimised archive ends up.
    pub destination: String,
}

/// The plan for a comic at `path`, spelled out over the results of the path
/// functions of `std`.
pub open spec fn is_output_plan(
    path: Seq<char>,
    temp_out: Seq<char>,
    mode: FileMode,
    plan: OutputPlan,
) -> bool {
    &&& stem_of(path) matches Some(stem)
    &&& {
        let ext = match extension_of(path) {
            Some(e) => e,
            None => Seq::empty(),
        };
        let names = output_names(stem, ext, mode);
        let parent = parent_dir(path);
        let destination = std_join(parent, names.0);
        let backup = match names.1 {
            Some(b) => std_join(parent, b),
            None => Seq::empty(),
        };
        &&& plan.destination@ == destination
        &&& steps_view(plan.steps@) == placement_steps(
            mode,
            path,
            temp_out,
            destination,
            backup,
            mode == FileMode::Replace && std_path_eq(path, destination),
        )
    }
}

/// Plans how the optimised archive built at `temp_out` takes its place next
/// to the comic, according to the file mode. `None` when the comic's path has
/// no file name.
pub fn finalize_output_paths(comic: &ComicFile, temp_out: &str, mode: FileMode) -> (r: Option<OutputPlan>)
    ensures
        match r {
            Some(plan) => is_output_plan(comic.path@, temp_out@, mode, plan),
            None => std_file_name(comic.path@) is None,
        },
{
    let path = comic.path.as_str();
    match stem_and_extension(path) {
        None => None,
        Some(se) => {
            let parent = parent_dir_of(path);
            let ext = match &se.1 {
                Some(e) => e.clone(),
                None => "".to_owned(),
            };
            proof {
                reveal_strlit("");
            }
            assert(ext@ == match extension_of(path@) {
                Some(e) => e,
                None => Seq::<char>::empty(),
            });
            let names = output_file_names(se.0.as_str(), ext.as_str(), mode);
            let destination = path_join(parent.as_str(), names.0.as_str());
            let backup = match &names.1 {
                Some(b) => path_join(parent.as_str(), b.as_str()),
                None => "".to_owned(),
            };
            let same_path = match mode {
                FileMode::Replace => paths_equal(path, destination.as_str()),
                _ => false,
            };
            let steps = placement_plan(
                mode,
                path,
                temp_out,
                destination.as_str(),
                backup.as_str(),
                same_path,
            );
            Some(OutputPlan { steps, destination })
        },
    }
}

/// Only `Replace` deletes anything. In `Suffix` and `Rename` modes every
/// operation is a rename and the archive ends at the destination; `Suffix`
/// moves nothing but the new archive, so the original stays as it was, and
/// `Rename` moves the original to the backup name only.
pub proof fn lemma_only_replace_deletes(
    mode: FileMode,
    original: Seq<char>,
    temp_out: Seq<char>,
    destination: Seq<char>,
    backup: Seq<char>,
    same_path: bool,
)
    requires
        mode != FileMode::Replace,
    ensures
        ({
            let steps = placement_steps(mode, original, temp_out, destination, backup, same_path);
            &&& forall|k: int| 0 <= k < steps.len() ==> #[trigger] steps[k] is Rename
            &&& steps.last() == StepView::Rename(temp_out, destination)
            &&& mode == FileMode::Suffix ==> steps.len() == 1
            &&& mode == FileMode::Rename ==> steps.len() == 2 && steps[0] == StepView::Rename(
                original,
                backup,
            )
        }),
{
}

/// The optimised file is always a CBZ: whatever the mode, its name ends with
/// `.cbz`, and only `Rename` keeps the original, under a name that keeps its
/// extension.
pub proof fn lemma_output_is_cbz(stem: Seq<char>, ext: Seq<char>, mode: FileMode)
    ensures
        crate::text::ends_with(output_names(stem, ext, mode).0, ".cbz"@),
        output_names(stem, ext, mode).1 is Some <==> mode == FileMode::Rename,
        output_names(stem, ext, mode).1 matches Some(b) ==> crate::text::ends_with(b, ext),
{
    let name = output_names(stem, ext, mode).0;
    reveal_strlit(".optimise.cbz");
    reveal_strlit(".cbz");
    match mode {
        FileMode::Suffix => {
            let x = ".optimise.cbz"@;
            assert(x.subrange(9, 13) =~= ".cbz"@);
            assert(name.subrange(name.len() - 4, name.len() as int) =~= x.subrange(9, 13));
        },
        _ => {
            assert(name.subrange(name.len() - 4, name.len() as int) =~= ".cbz"@);
        },
    }
    if mode == FileMode::Rename {
        let b = stem + ".original."@ + ext;
        assert(b.subrange(b.len() - ext.len(), b.len() as int) =~= ext);
    }
}

} // verus!
