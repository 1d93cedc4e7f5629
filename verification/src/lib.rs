//! Verified decision logic of a comic-book shrinker: recognising comic files,
//! ordering pages, planning the output files, checking image dimensions and
//! pixel buffers, and summarising a run.
pub mod text;
pub mod paths;
pub mod models;
pub mod comic;
pub mod archive;
pub mod epub;
pub mod pdf;
pub mod image_rules;
pub mod processor;
pub mod summary;
pub mod job;
