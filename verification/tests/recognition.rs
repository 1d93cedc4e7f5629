use rusty_library_shrinker::archive::{
    extraction_order, is_enclosed_entry, order_by_name, zip_entry_target, ArchiveFormat,
};
use rusty_library_shrinker::comic::{build_glob_pattern, comic_type_from_extension, detect_type, DetectError};
use rusty_library_shrinker::models::{ComicFile, ComicType};
use rusty_library_shrinker::paths::{extension, split_name, stem_and_extension};
use rusty_library_shrinker::text::{
    chars_le, chars_of, contains_str, ends_with_str, last_index_of_char, lowercase_equals,
    same_text, starts_with_str,
};

fn names(list: &[&str]) -> Vec<String> {
    list.iter().map(|s| s.to_string()).collect()
}

#[test]
fn detect_type_recognises_each_format_in_any_case() {
    let f = detect_type("comics/Foo.CBZ").unwrap();
    assert_eq!(f, ComicFile { path: "comics/Foo.CBZ".to_string(), file_type: ComicType::Cbz });
    assert_eq!(detect_type("x.tar.cbr").unwrap().file_type, ComicType::Cbr);
    assert_eq!(detect_type("/a/doc.Pdf").unwrap().file_type, ComicType::Pdf);
    assert_eq!(detect_type("book.EPUB").unwrap().file_type, ComicType::Epub);
}

#[test]
fn detect_type_refuses_other_files() {
    assert_eq!(detect_type("notes.txt").unwrap_err(), DetectError::UnsupportedFormat);
    assert_eq!(detect_type("noext").unwrap_err(), DetectError::UnsupportedFormat);
    // A hidden file named like an extension has no extension.
    assert_eq!(detect_type("dir/.cbz").unwrap_err(), DetectError::UnsupportedFormat);
    assert_eq!(detect_type("archive.cbz.bak").unwrap_err(), DetectError::UnsupportedFormat);
    assert_eq!(detect_type("..").unwrap_err(), DetectError::UnsupportedFormat);
}

#[test]
fn comic_type_from_extension_ignores_case() {
    assert_eq!(comic_type_from_extension(Some("CbR")), Some(ComicType::Cbr));
    assert_eq!(comic_type_from_extension(Some("cbzz")), None);
    assert_eq!(comic_type_from_extension(None), None);
}

#[test]
fn file_names_split_like_std() {
    assert_eq!(split_name("a.b.c"), ("a.b".to_string(), Some("c".to_string())));
    assert_eq!(split_name("foo."), ("foo".to_string(), Some("".to_string())));
    assert_eq!(split_name(".hidden"), (".hidden".to_string(), None));
    assert_eq!(split_name(".."), ("..".to_string(), None));
    assert_eq!(split_name("plain"), ("plain".to_string(), None));
    for p in ["a/b.c.d", "x/.y", "foo.", "dir/", "/", "a/..", "é.çbz"] {
        let path = std::path::Path::new(p);
        let expected = path.file_name().map(|_| {
            (
                path.file_stem().unwrap().to_string_lossy().into_owned(),
                path.extension().map(|e| e.to_string_lossy().into_owned()),
            )
        });
        assert_eq!(stem_and_extension(p), expected, "{}", p);
        assert_eq!(extension(p), expected.and_then(|e| e.1), "{}", p);
    }
}

#[test]
fn glob_pattern_searches_below_a_directory() {
    assert_eq!(build_glob_pattern("/comics", true, "ABC*.cbr"), "/comics/**/ABC*.cbr");
    assert_eq!(build_glob_pattern("/comics/", true, "**/The Killer*.cbr"), "/comics/**/The Killer*.cbr");
    assert_eq!(build_glob_pattern(".", false, "*.pdf"), "*.pdf");
    // An absolute pattern replaces the directory.
    assert_eq!(build_glob_pattern("/comics", true, "/abs/**/K*.cbr"), "/abs/**/K*.cbr");
}

#[test]
fn cbr_is_tried_as_rar_then_zip() {
    assert_eq!(extraction_order(ComicType::Cbr), vec![ArchiveFormat::Rar, ArchiveFormat::Zip]);
    assert_eq!(extraction_order(ComicType::Cbz), vec![ArchiveFormat::Zip]);
    assert_eq!(extraction_order(ComicType::Pdf), vec![ArchiveFormat::Pdf]);
    assert_eq!(extraction_order(ComicType::Epub), vec![ArchiveFormat::Epub]);
}

#[test]
fn zip_entries_land_below_the_extraction_directory() {
    let dir = zip_entry_target("/tmp/x", "chapter/").unwrap();
    assert_eq!(dir.output_path, "/tmp/x/chapter/");
    assert_eq!(dir.parent_dir, Some("/tmp/x".to_string()));
    assert!(dir.is_directory);
    let page = zip_entry_target("/tmp/x", "chapter/p1.jpg").unwrap();
    assert_eq!(page.output_path, "/tmp/x/chapter/p1.jpg");
    assert_eq!(page.parent_dir, Some("/tmp/x/chapter".to_string()));
    assert!(!page.is_directory);
    let dotted = zip_entry_target("/tmp/x", "a..b/..c/p.webp").unwrap();
    assert_eq!(dotted.output_path, "/tmp/x/a..b/..c/p.webp");
}

#[test]
fn zip_entries_never_leave_the_extraction_directory() {
    assert_eq!(zip_entry_target("/tmp/x", "../evil.txt"), None);
    assert_eq!(zip_entry_target("/tmp/x", "/tmp/y"), None);
    assert_eq!(zip_entry_target("/tmp/x", "a/../../b"), None);
    assert_eq!(zip_entry_target("/tmp/x", "a\\..\\b"), None);
    assert_eq!(zip_entry_target("/tmp/x", "\\root"), None);
    assert_eq!(zip_entry_target("/tmp/x", "a/.."), None);
    assert!(!is_enclosed_entry(".."));
    assert!(is_enclosed_entry("..."));
    assert!(is_enclosed_entry("ComicInfo.xml"));
    assert!(is_enclosed_entry(""));
}

#[test]
fn cbz_entries_keep_every_file_sorted_by_name() {
    let list = names(&["p10.webp", "p2.webp", "ComicInfo.xml", "p1.webp", "p2.webp", "p3.jpg"]);
    assert_eq!(order_by_name(&list), vec![2, 3, 0, 1, 4, 5]);
    assert_eq!(order_by_name(&Vec::new()), Vec::<usize>::new());
}

#[test]
fn cbz_order_compares_code_points() {
    let list = names(&["b.webp", "B.webp", "é.webp", "a.webp"]);
    assert_eq!(order_by_name(&list), vec![1, 3, 0, 2]);
}

#[test]
fn cbz_order_depends_on_names_only() {
    let a = names(&["0003.webp", "0001.webp", "0002.webp"]);
    let b = names(&["0002.webp", "0003.webp", "0001.webp"]);
    let pick = |l: &Vec<String>, o: Vec<usize>| o.into_iter().map(|i| l[i].clone()).collect::<Vec<_>>();
    assert_eq!(pick(&a, order_by_name(&a)), pick(&b, order_by_name(&b)));
}

#[test]
fn all_files_sorted_by_name() {
    let list = names(&["p2.webp", "ComicInfo.xml", "p1.webp"]);
    assert_eq!(order_by_name(&list), vec![1, 2, 0]);
}

#[test]
fn text_helpers() {
    assert!(contains_str("a/**/b", "**"));
    assert!(!contains_str("a/*/b", "**"));
    assert!(contains_str("x", ""));
    assert!(!contains_str("", "a"));
    assert!(ends_with_str("p.webp", ".webp"));
    assert!(!ends_with_str("webp", ".webp"));
    assert!(starts_with_str("image/png", "image/"));
    assert!(!starts_with_str("imag", "image/"));
    assert_eq!(last_index_of_char("a/b/c", '/'), Some(3));
    assert_eq!(last_index_of_char("abc", '/'), None);
    assert!(lowercase_equals("JpEg", "jpeg"));
    assert!(!lowercase_equals("jpg", "jpeg"));
    assert!(same_text("é", "é"));
    assert!(!same_text("e", "é"));
    assert!(chars_le(&chars_of("ab"), &chars_of("abc")));
    assert!(!chars_le(&chars_of("b"), &chars_of("abc")));
}
