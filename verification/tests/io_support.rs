use nata::error::AppError;
use nata::io_support::{
    apply_duplicate_suffixes, ensure_output_differs, ensure_output_directory, input_stem, output_parent_dir,
    stem_or_default, validate_input_pdf, validate_single_output,
};
use nata::protocol::PathKind;

fn chars(s: &str) -> Vec<char> {
    s.chars().collect()
}

#[test]
fn relative_output_in_current_directory_is_allowed() {
    let parent = output_parent_dir("out.pdf").expect("relative output has a directory");
    assert_eq!(parent, ".");
    validate_single_output("out.pdf", &parent, PathKind::Directory, PathKind::Missing, false)
        .expect("relative output in current directory should be allowed");
}

#[test]
fn missing_input_is_rejected() {
    assert!(matches!(
        validate_input_pdf("dir/missing.pdf", PathKind::Missing),
        Err(AppError::InputPdfNotFound { .. })
    ));
}

#[test]
fn input_must_be_a_file() {
    assert!(matches!(
        validate_input_pdf("dir", PathKind::Directory),
        Err(AppError::InputPdfNotFile { path }) if path == "dir"
    ));
    assert!(validate_input_pdf("in.pdf", PathKind::File).is_ok());
}

#[test]
fn existing_output_requires_overwrite() {
    assert!(matches!(
        validate_single_output("dir/out.pdf", "dir", PathKind::Directory, PathKind::File, false),
        Err(AppError::OutputAlreadyExists { .. })
    ));
    validate_single_output("dir/out.pdf", "dir", PathKind::Directory, PathKind::File, true)
        .expect("overwrite should allow existing output");
}

#[test]
fn existing_output_directory_is_rejected_even_with_overwrite() {
    assert!(matches!(
        validate_single_output("dir/existing-dir", "dir", PathKind::Directory, PathKind::Directory, true),
        Err(AppError::OutputPathNotFile { .. })
    ));
}

#[test]
fn output_in_missing_directory_is_rejected() {
    assert!(matches!(
        validate_single_output("nowhere/out.pdf", "nowhere", PathKind::Missing, PathKind::Missing, true),
        Err(AppError::OutputDirectoryNotFound { path }) if path == "nowhere"
    ));
}

#[test]
fn ensure_output_directory_creates_missing_directory() {
    assert_eq!(ensure_output_directory("dir/nested/out", PathKind::Missing).expect("missing is created"), true);
    assert_eq!(ensure_output_directory("dir/out", PathKind::Directory).expect("directory is kept"), false);
    assert!(matches!(
        ensure_output_directory("dir/file", PathKind::File),
        Err(AppError::OutputPathNotDirectory { path }) if path == "dir/file"
    ));
}

#[test]
fn merge_output_must_differ_from_inputs() {
    let inputs = vec!["dir/input.pdf".to_owned()];
    let canonical = vec![Ok("/abs/dir/input.pdf".to_owned()), Ok("/abs/dir/input.pdf".to_owned())];
    assert!(matches!(
        ensure_output_differs("dir/input.pdf", &inputs, &canonical),
        Err(AppError::OutputPathMatchesInput { .. })
    ));
}

#[test]
fn extract_output_must_differ_from_input() {
    let inputs = vec!["a/input.pdf".to_owned()];
    let canonical = vec![Ok("/abs/a/input.pdf".to_owned()), Ok("/abs/a/input.pdf".to_owned())];
    assert!(matches!(
        ensure_output_differs("a/../a/input.pdf", &inputs, &canonical),
        Err(AppError::OutputPathMatchesInput { path }) if path == "a/../a/input.pdf"
    ));
}

#[test]
fn output_without_canonical_path_is_compared_as_given() {
    let inputs = vec!["a.pdf".to_owned(), "b.pdf".to_owned()];
    let canonical = vec![Err("missing".to_owned()), Ok("/w/a.pdf".to_owned()), Ok("/w/b.pdf".to_owned())];
    assert!(ensure_output_differs("out.pdf", &inputs, &canonical).is_ok());
    let canonical = vec![Err("missing".to_owned()), Ok("out.pdf".to_owned()), Ok("/w/b.pdf".to_owned())];
    assert!(matches!(
        ensure_output_differs("out.pdf", &inputs, &canonical),
        Err(AppError::OutputPathMatchesInput { .. })
    ));
}

#[test]
fn unresolvable_input_is_invalid() {
    let inputs = vec!["a.pdf".to_owned(), "b.pdf".to_owned()];
    let canonical = vec![Ok("/w/out.pdf".to_owned()), Ok("/w/a.pdf".to_owned()), Err("gone".to_owned())];
    match ensure_output_differs("out.pdf", &inputs, &canonical) {
        Err(AppError::InputPdfInvalid { path, detail }) => {
            assert_eq!(path, "b.pdf");
            assert_eq!(detail, "failed to resolve input path: gone");
        }
        other => panic!("unexpected result: {other:?}"),
    }
}

#[test]
fn input_stem_of_paths() {
    assert_eq!(input_stem("dir/input.pdf"), "input");
    assert_eq!(input_stem("dir/ report .pdf"), "report");
    assert_eq!(input_stem(""), "input");
    assert_eq!(stem_or_default(Some("  ")), "input");
    assert_eq!(stem_or_default(None), "input");
    assert_eq!(stem_or_default(Some(" a b ")), "a b");
}

#[test]
fn dedup_keeps_unique_names_and_suffixes_repeats() {
    let bases = vec![chars("x"), chars("y"), chars("x"), chars("x-2"), chars("x")];
    let names = apply_duplicate_suffixes(&bases, &chars("pdf"));
    let names = names.into_iter().map(|n| n.into_iter().collect::<String>()).collect::<Vec<_>>();
    assert_eq!(names, vec!["x.pdf", "y.pdf", "x-2.pdf", "x-2-2.pdf", "x-3.pdf"]);
}

#[test]
fn root_output_has_no_directory() {
    assert!(matches!(
        output_parent_dir("/"),
        Err(AppError::OutputDirectoryNotFound { path }) if path == "/"
    ));
    assert_eq!(output_parent_dir("dir/out.pdf").expect("has directory"), "dir");
}

#[test]
fn parent_of_a_portable_path_is_its_text_before_the_last_slash() {
    assert_eq!(output_parent_dir("a/b/c.pdf").expect("has directory"), "a/b");
    assert_eq!(output_parent_dir("/c.pdf").expect("has directory"), "/");
    assert!(matches!(output_parent_dir(""), Err(AppError::OutputDirectoryNotFound { .. })));
}

#[test]
fn output_is_compared_with_inputs_as_paths() {
    let inputs = vec!["/abs/in.pdf".to_owned(), "/abs/two.pdf".to_owned()];
    // The output has no canonical path, so its own text is compared; a
    // trailing separator and a `.` component do not make it another path.
    let canonical = vec![Err("not found".to_owned()), Ok("/abs/in.pdf".to_owned()), Ok("/abs/two.pdf".to_owned())];
    assert!(matches!(
        ensure_output_differs("/abs/in.pdf/", &inputs, &canonical),
        Err(AppError::OutputPathMatchesInput { path }) if path == "/abs/in.pdf/"
    ));
    assert!(matches!(
        ensure_output_differs("/abs/./two.pdf", &inputs, &canonical),
        Err(AppError::OutputPathMatchesInput { .. })
    ));
    assert!(matches!(
        ensure_output_differs("//abs//in.pdf", &inputs, &canonical),
        Err(AppError::OutputPathMatchesInput { .. })
    ));
    assert!(ensure_output_differs("/abs/in.pdf.bak", &inputs, &canonical).is_ok());
    assert!(ensure_output_differs("abs/in.pdf", &inputs, &canonical).is_ok());
}

#[test]
fn output_directory_is_read_by_components() {
    assert_eq!(output_parent_dir("./out.pdf").expect("has directory"), ".");
    assert_eq!(output_parent_dir("out//x.pdf").expect("has directory"), "out");
    assert_eq!(output_parent_dir("a/./b.pdf").expect("has directory"), "a");
    assert_eq!(output_parent_dir("a/b/").expect("has directory"), "a");
    assert_eq!(output_parent_dir("../x.pdf").expect("has directory"), "..");
}

#[test]
fn input_stem_of_unix_paths() {
    assert_eq!(input_stem("./a.b.pdf"), "a.b");
    assert_eq!(input_stem("dir/.hidden"), ".hidden");
    assert_eq!(input_stem("dir/archive."), "archive");
    assert_eq!(input_stem("dir/sub/"), "sub");
    assert_eq!(input_stem("dir/.."), "input");
    assert_eq!(input_stem("/"), "input");
}
