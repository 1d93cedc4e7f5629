//! The data the library works on: the kinds of comic files, how output files
//! are named, and what the processing of one file reports.
use vstd::prelude::*;

verus! {

/// How the optimised file is placed next to the original one.
#[derive(Clone, Copy, Debug, PartialEq, Eq, Structural)]
pub enum FileMode {
    /// A new file `<stem>.optimise.cbz` is created; the original stays (default).
    Suffix,
    /// The original becomes `<stem>.original.<ext>` and the optimised file takes
    /// the name `<stem>.cbz`.
    Rename,
    /// The original is removed and the optimised file is `<stem>.cbz`.
    Replace,
}

/// The comic file formats that can be processed.
#[derive(Clone, Copy, Debug, PartialEq, Eq, Structural)]
pub enum ComicType {
    /// Comic Book Zip: a ZIP archive.
    Cbz,
    /// Comic Book Rar: a RAR archive (often a renamed ZIP archive).
    Cbr,
    /// Portable Document Format.
    Pdf,
    /// Electronic Publication.
    Epub,
}

/// A comic file found for processing.
#[derive(Clone, Debug, PartialEq, Eq)]
pub struct ComicFile {
    /// Path of the file on disk.
    pub path: String,
    /// The format recognised from its extension.
    pub file_type: ComicType,
}

/// What the processing of one comic file reports.
#[derive(Clone, Debug, PartialEq, Eq)]
pub struct ProcessingStats {
    /// Size of the original file in bytes.
    pub original_size: u64,
    /// Size of the file that stands after processing, in bytes.
    pub compressed_size: u64,
    /// Number of images handled successfully.
    pub images_processed: usize,
    /// Number of images that could not be converted.
    pub images_skipped: usize,
    /// Whether the optimised archive was dropped for want of sufficient savings.
    pub compression_skipped: bool,
    /// Path of the optimised file, when one was kept.
    pub output_path: Option<String>,
    /// What went wrong, when the processing failed.
    pub error_message: Option<String>,
    /// An informative status, such as that the gain was insufficient.
    pub status_message: Option<String>,
    /// For each skipped image, its file name and the reason.
    pub skipped_details: Vec<(String, String)>,
}

} // verus!
