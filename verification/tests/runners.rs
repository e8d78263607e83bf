use nata::command_support::{batch_extension, is_windows_batch_wrapper, new_command, stderr_summary};
use nata::error::AppError;
use nata::exit_code::ExitCode;
use nata::pdftoppm_runner::{
    check_generated_png, check_png_kind, find_generated_png, png_extension, select_single_png, work_base,
    PdftoppmRunner,
};
use nata::protocol::{PathKind, ProcessOutcome};
use nata::qpdf_runner::QpdfRunner;
use nata::strict::StrictFeature;

fn exited(success: bool, stdout: &[u8], stderr: &[u8]) -> ProcessOutcome {
    ProcessOutcome::Exited { success, stdout: stdout.to_vec(), stderr: stderr.to_vec() }
}

#[test]
fn inspect_strict_features_reads_from_temp_file_output() {
    let qpdf = QpdfRunner::new("qpdf".to_owned());
    let command = qpdf.inspect_strict_command("dir/input.pdf");
    assert_eq!(command.args, vec!["--json", "dir/input.pdf"]);
    assert!(command.stdout_to_temp_file);
    let inspection = qpdf
        .inspect_strict_features(&exited(true, br#"{"outlines":{"first":"1 0 R"}}"#, b""))
        .expect("strict inspection should succeed");
    assert_eq!(inspection.features(), &[StrictFeature::Outlines]);
}

#[test]
fn inspect_strict_features_keeps_backend_error_mapping() {
    let qpdf = QpdfRunner::new("qpdf".to_owned());
    assert!(matches!(
        qpdf.inspect_strict_features(&exited(false, b"{}", b"strict json failure\n")),
        Err(AppError::QpdfCommandFailed { operation, detail })
            if operation == "strict inspection (qpdf --json)" && detail.contains("strict json failure")
    ));
}

#[test]
fn inspect_strict_features_reports_bad_json_and_launch_failure() {
    let qpdf = QpdfRunner::new("qpdf".to_owned());
    assert!(matches!(
        qpdf.inspect_strict_features(&exited(true, b"[", b"")),
        Err(AppError::QpdfCommandFailed { detail, .. }) if detail.starts_with("unexpected qpdf --json output: ")
    ));
    assert!(matches!(
        qpdf.inspect_strict_features(&ProcessOutcome::Failed("no such file".to_owned())),
        Err(AppError::QpdfExecutionFailed { operation, source })
            if operation == "strict inspection (qpdf --json)" && source == "no such file"
    ));
}

#[test]
fn show_npages_reads_the_count() {
    let qpdf = QpdfRunner::new("/usr/bin/qpdf".to_owned());
    let command = qpdf.show_npages_command("in.pdf");
    assert_eq!(command.executable, "/usr/bin/qpdf");
    assert_eq!(command.args, vec!["--show-npages", "in.pdf"]);
    assert!(!command.stdout_to_temp_file);
    assert_eq!(qpdf.show_npages("in.pdf", &exited(true, b" 12\n", b"")).expect("count"), 12);
}

#[test]
fn show_npages_rejects_unreadable_input() {
    let qpdf = QpdfRunner::new("qpdf".to_owned());
    match qpdf.show_npages("in.pdf", &exited(false, b"", b"  invalid pdf \n")) {
        Err(AppError::InputPdfInvalid { path, detail }) => {
            assert_eq!(path, "in.pdf");
            assert_eq!(detail, "invalid pdf");
        }
        other => panic!("unexpected result: {other:?}"),
    }
    match qpdf.show_npages("in.pdf", &exited(false, b"", b"")) {
        Err(AppError::InputPdfInvalid { detail, .. }) => assert_eq!(detail, "qpdf did not provide error details"),
        other => panic!("unexpected result: {other:?}"),
    }
    match qpdf.show_npages("in.pdf", &exited(true, b"many", b"")) {
        Err(AppError::InputPdfInvalid { detail, .. }) => {
            assert_eq!(detail, "unexpected qpdf --show-npages output: many")
        }
        other => panic!("unexpected result: {other:?}"),
    }
    assert!(matches!(
        qpdf.show_npages("in.pdf", &ProcessOutcome::Failed("denied".to_owned())),
        Err(AppError::QpdfExecutionFailed { operation, .. }) if operation == "show_npages"
    ));
}

#[test]
fn extract_and_merge_commands() {
    let qpdf = QpdfRunner::new("qpdf".to_owned());
    let extract = qpdf.extract_pages_command("in.pdf", "1-3,z", "tmp.pdf");
    assert_eq!(extract.args, vec!["in.pdf", "--pages", ".", "1-3,z", "--", "tmp.pdf"]);
    let merge = qpdf.merge_pdfs_command(&vec!["a.pdf".to_owned(), "b.pdf".to_owned()], "tmp.pdf");
    assert_eq!(merge.args, vec!["--empty", "--pages", "a.pdf", "b.pdf", "--", "tmp.pdf"]);
    assert!(qpdf.extract_pages(&exited(true, b"", b"")).is_ok());
    assert!(matches!(
        qpdf.extract_pages(&exited(false, b"", b"extract failure")),
        Err(AppError::QpdfCommandFailed { operation, detail }) if operation == "extract_pages" && detail == "extract failure"
    ));
    assert!(matches!(
        qpdf.merge_pdfs(&ProcessOutcome::Failed("boom".to_owned())),
        Err(AppError::QpdfExecutionFailed { operation, source }) if operation == "merge_pdfs" && source == "boom"
    ));
}

#[test]
fn render_page_to_png_maps_command_failures() {
    let runner = PdftoppmRunner::new("pdftoppm".to_owned());
    assert!(matches!(
        runner.render_outcome(&exited(false, b"", b"render failure\n")),
        Err(AppError::PdftoppmCommandFailed { operation, detail })
            if operation == "render_page_to_png" && detail.contains("render failure")
    ));
    assert!(matches!(
        runner.render_outcome(&ProcessOutcome::Failed("gone".to_owned())),
        Err(AppError::PdftoppmExecutionFailed { operation, .. }) if operation == "render_page_to_png"
    ));
    assert!(runner.render_outcome(&exited(true, b"", b"")).is_ok());
}

#[test]
fn render_page_command_arguments() {
    let runner = PdftoppmRunner::new("pdftoppm".to_owned());
    let command = runner.render_page_command("in.pdf", 2, 150, "work/rendered");
    assert_eq!(command.executable, "pdftoppm");
    assert_eq!(command.args, vec!["-f", "2", "-l", "2", "-r", "150", "-png", "in.pdf", "work/rendered"]);
}

#[test]
fn find_generated_png_accepts_zero_padded_name() {
    let entries = vec!["work/rendered-01.png".to_owned()];
    assert_eq!(find_generated_png(&entries), Some("work/rendered-01.png".to_owned()));
}

#[test]
fn find_generated_png_needs_exactly_one_png() {
    assert_eq!(find_generated_png(&vec![]), None);
    assert_eq!(
        find_generated_png(&vec!["w/a.png".to_owned(), "w/b.PNG".to_owned()]),
        None
    );
    assert_eq!(
        find_generated_png(&vec!["w/a.txt".to_owned(), "w/b.PNG".to_owned(), "w/c".to_owned()]),
        Some("w/b.PNG".to_owned())
    );
    assert!(png_extension(Some("PnG")));
    assert!(!png_extension(Some("pngx")));
    assert!(!png_extension(None));
    assert_eq!(
        select_single_png(&vec!["x".to_owned(), "y".to_owned()], &vec![None, Some("png".to_owned())]),
        Some("y".to_owned())
    );
}

#[test]
fn generated_png_must_lie_in_the_work_directory() {
    assert_eq!(
        check_generated_png(Some("w/r-1.png".to_owned()), Some("w".to_owned()), "w").expect("in place"),
        "w/r-1.png"
    );
    assert!(matches!(
        check_generated_png(Some("v/r-1.png".to_owned()), Some("v".to_owned()), "w"),
        Err(AppError::PdftoppmCommandFailed { detail, .. }) if detail == "pdftoppm produced an unexpected PNG output path"
    ));
    assert!(matches!(
        check_generated_png(None, None, "w"),
        Err(AppError::PdftoppmCommandFailed { detail, .. }) if detail == "pdftoppm did not produce the expected PNG output"
    ));
    assert!(check_png_kind(PathKind::File).is_ok());
    assert!(matches!(check_png_kind(PathKind::Directory), Err(AppError::PdftoppmCommandFailed { .. })));
    assert_eq!(work_base("out/.nata-x"), "out");
    assert_eq!(work_base("/"), ".");
}

#[test]
fn stderr_summary_trims_or_notes_silence() {
    assert_eq!(stderr_summary("qpdf", b"  broken file\n"), "broken file");
    assert_eq!(stderr_summary("pdftoppm", b" \n "), "pdftoppm did not provide error details");
    assert_eq!(stderr_summary("qpdf", &[0x66, 0xff, 0x6f]), "f\u{fffd}o");
}

#[test]
fn batch_wrappers_run_through_cmd_on_windows() {
    assert!(batch_extension(Some("CMD")));
    assert!(batch_extension(Some("bat")));
    assert!(!batch_extension(Some("exe")));
    assert!(!batch_extension(None));
    assert!(is_windows_batch_wrapper("tools/qpdf.Bat"));
    assert!(!is_windows_batch_wrapper("tools/qpdf"));
    let wrapped = new_command("tools/qpdf.cmd", true);
    assert_eq!(wrapped.program, "cmd.exe");
    assert_eq!(wrapped.args, vec!["/C", "tools/qpdf.cmd"]);
    let plain = new_command("tools/qpdf.cmd", false);
    assert_eq!(plain.program, "tools/qpdf.cmd");
    assert!(plain.args.is_empty());
    let exe = new_command("tools/qpdf.exe", true);
    assert_eq!(exe.program, "tools/qpdf.exe");
    assert!(exe.args.is_empty());
}

#[test]
fn error_classes_map_to_exit_codes() {
    assert_eq!(ExitCode::Success.code(), 0);
    assert_eq!(AppError::MergeRequiresAtLeastTwoInputs.exit_code().code(), 1);
    assert_eq!(AppError::InputPdfNotFound { path: "a".to_owned() }.exit_code().code(), 2);
    assert_eq!(AppError::OutputAlreadyExists { path: "a".to_owned() }.exit_code().code(), 3);
    assert_eq!(AppError::QpdfNotFound.exit_code().code(), 4);
    assert_eq!(AppError::PdftoppmNotFound.exit_code().code(), 4);
    assert_eq!(
        AppError::StrictViolation { path: "a".to_owned(), detail: "b".to_owned() }.exit_code().code(),
        5
    );
    assert_eq!(AppError::PageOutOfRange { page: 2, total_pages: 1 }.exit_code(), ExitCode::CliArgumentError);
}

#[test]
fn help_and_version_exit_successfully() {
    assert_eq!(ExitCode::for_unparsed_arguments(true), ExitCode::Success);
    assert_eq!(ExitCode::for_unparsed_arguments(false).code(), 1);
}

#[test]
fn generated_png_directory_is_compared_as_a_path() {
    assert_eq!(
        check_generated_png(Some("w/r-1.png".to_owned()), Some("w".to_owned()), "w/").expect("same directory"),
        "w/r-1.png"
    );
    assert_eq!(
        check_generated_png(Some("/t/w/r-1.png".to_owned()), Some("/t/./w".to_owned()), "/t/w").expect("same directory"),
        "/t/w/r-1.png"
    );
    assert!(matches!(
        check_generated_png(Some("r-1.png".to_owned()), None, "w"),
        Err(AppError::PdftoppmCommandFailed { detail, .. }) if detail == "pdftoppm produced an unexpected PNG output path"
    ));
}

#[test]
fn work_base_keeps_the_components_before_the_last() {
    assert_eq!(work_base("./out.png"), ".");
    assert_eq!(work_base("a/./b/c.png"), "a/./b");
    assert_eq!(work_base("a/b/./c.png"), "a/b");
    assert_eq!(work_base("out.png"), "");
    assert_eq!(work_base("/out.png"), "/");
}
