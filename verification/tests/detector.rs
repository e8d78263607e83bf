use nata::cli::CommonOptions;
use nata::error::AppError;
use nata::qpdf_detector::{announce, detect, locate, DetectStep, Tool};

/// Runs a lookup to its end against a pretend file system: `file` says
/// which paths are files, `executable` which of them have an exec bit.
fn finish(
    mut step: DetectStep,
    detection: &mut nata::qpdf_detector::Detection,
    file: &dyn Fn(&str) -> bool,
    executable: &dyn Fn(&str) -> bool,
) -> Result<String, AppError> {
    loop {
        match step {
            DetectStep::CheckExecutable(path) => step = detection.resume(file(&path) && executable(&path)),
            DetectStep::CheckFile(path) => step = detection.resume(file(&path)),
            DetectStep::Found(path) => return Ok(path),
            DetectStep::Failed(error) => return Err(error),
        }
    }
}

#[test]
fn cli_path_has_highest_priority() {
    let (mut detection, step) = detect(
        Some("/tmp/cli.bin".to_owned()),
        Some("missing-from-env".to_owned()),
        Some(vec!["missing-from-path".to_owned()]),
        false,
    );
    assert!(matches!(&step, DetectStep::CheckFile(p) if p == "/tmp/cli.bin"));
    let detected = finish(step, &mut detection, &|p| p == "/tmp/cli.bin", &|_| false).expect("cli path should win");
    assert_eq!(detected, "/tmp/cli.bin");
}

#[test]
fn env_path_is_used_when_cli_path_is_absent() {
    let (mut detection, step) = detect(
        None,
        Some("/tmp/env.bin".to_owned()),
        Some(vec!["missing-from-path".to_owned()]),
        false,
    );
    let detected =
        finish(step, &mut detection, &|p| p == "/tmp/env.bin", &|_| false).expect("env path should be used");
    assert_eq!(detected, "/tmp/env.bin");
}

#[test]
fn path_lookup_is_used_last() {
    let (mut detection, step) = detect(None, None, Some(vec!["/opt/bin".to_owned()]), false);
    let detected = finish(step, &mut detection, &|p| p == "/opt/bin/qpdf", &|_| true)
        .expect("path lookup should find qpdf candidate");
    assert_eq!(detected, "/opt/bin/qpdf");
}

#[test]
fn path_lookup_skips_non_executable_files() {
    let (mut detection, step) = detect(
        None,
        None,
        Some(vec!["/plain".to_owned(), "/exec".to_owned()]),
        false,
    );
    let detected = finish(step, &mut detection, &|p| p == "/plain/qpdf" || p == "/exec/qpdf", &|p| p == "/exec/qpdf")
        .expect("path lookup should skip non executable file");
    assert_eq!(detected, "/exec/qpdf");
}

#[test]
fn explicit_path_that_is_not_executable_is_refused() {
    let (mut detection, step) = detect(Some("/tmp/none".to_owned()), None, None, false);
    assert!(matches!(
        finish(step, &mut detection, &|_| false, &|_| true),
        Err(AppError::QpdfNotExecutable { path }) if path == "/tmp/none"
    ));
}

#[test]
fn nothing_found_anywhere() {
    let (mut detection, step) = detect(None, None, None, false);
    assert!(matches!(finish(step, &mut detection, &|_| true, &|_| true), Err(AppError::QpdfNotFound)));
    let (mut detection, step) = detect(None, None, Some(vec!["/a".to_owned(), "/b".to_owned()]), false);
    assert!(matches!(finish(step, &mut detection, &|_| true, &|_| false), Err(AppError::QpdfNotFound)));
    let (mut detection, step) = detect(None, None, Some(vec![]), false);
    assert!(detection.is_finished());
    assert!(matches!(finish(step, &mut detection, &|_| true, &|_| true), Err(AppError::QpdfNotFound)));
}

#[test]
fn windows_tries_exe_first_and_pdftoppm_has_its_own_errors() {
    assert_eq!(Tool::Qpdf.executable_names(true), vec!["qpdf.exe", "qpdf"]);
    assert_eq!(Tool::Pdftoppm.executable_names(false), vec!["pdftoppm"]);
    assert_eq!(Tool::Qpdf.env_var(), "NATA_QPDF");
    assert_eq!(Tool::Pdftoppm.env_var(), "NATA_PDFTOPPM");
    let (mut detection, step) = locate(Tool::Pdftoppm, None, None, Some(vec!["/x".to_owned()]), false);
    assert!(matches!(finish(step, &mut detection, &|_| true, &|_| false), Err(AppError::PdftoppmNotFound)));
    let (mut detection, step) = nata::pdftoppm_detector::detect(Some("/p".to_owned()), None, None, false);
    assert!(matches!(
        finish(step, &mut detection, &|_| false, &|_| false),
        Err(AppError::PdftoppmNotExecutable { path }) if path == "/p"
    ));
}

#[test]
fn verbose_runs_announce_the_executable() {
    let mut common = CommonOptions { qpdf: None, pdftoppm: None, strict: false, quiet: false, verbose: true };
    assert_eq!(announce(Tool::Qpdf, "/usr/bin/qpdf", &common), Some("info: using qpdf at /usr/bin/qpdf".to_owned()));
    common.quiet = true;
    assert_eq!(announce(Tool::Qpdf, "/usr/bin/qpdf", &common), None);
    common.quiet = false;
    common.verbose = false;
    assert_eq!(announce(Tool::Pdftoppm, "/usr/bin/pdftoppm", &common), None);
}

#[test]
fn path_candidates_join_each_directory_with_each_name() {
    let (mut detection, step) = detect(None, None, Some(vec!["/a".to_owned(), "/b/".to_owned()]), true);
    let mut asked = Vec::new();
    let mut step = step;
    loop {
        match step {
            DetectStep::CheckExecutable(path) => {
                asked.push(path);
                step = detection.resume(false);
            }
            _ => break,
        }
    }
    let last = asked.len() - 1;
    assert_eq!(asked.len(), 4);
    assert!(asked[0].starts_with("/a") && asked[0].ends_with("qpdf.exe"));
    assert!(asked[1].starts_with("/a") && asked[1].ends_with("qpdf") && !asked[1].ends_with(".exe"));
    assert_eq!(asked[2], "/b/qpdf.exe");
    assert_eq!(asked[last], "/b/qpdf");
}
