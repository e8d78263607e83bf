use std::collections::BTreeMap;

use nata::cli::{CommonOptions, ExtractArgs, MergeArgs, RenderArgs, SplitArgs};
use nata::error::AppError;
use nata::pdftoppm_runner::PdftoppmRunner;
use nata::protocol::{PathKind, ProcessOutcome, Reply, Request};
use nata::qpdf_runner::QpdfRunner;

/// A pretend machine: files and directories by path, and how the programs behave.
struct World {
    kinds: BTreeMap<String, PathKind>,
    pages: u32,
    readable: bool,
    extract_ok: bool,
    render_ok: bool,
    json: Vec<u8>,
    json_called: bool,
    log: Vec<String>,
    requests: Vec<String>,
    counter: usize,
}

impl World {
    fn new(pages: u32) -> World {
        let mut kinds = BTreeMap::new();
        kinds.insert("w".to_owned(), PathKind::Directory);
        kinds.insert("w/input.pdf".to_owned(), PathKind::File);
        World {
            kinds,
            pages,
            readable: true,
            extract_ok: true,
            render_ok: true,
            json: b"{}".to_vec(),
            json_called: false,
            log: Vec::new(),
            requests: Vec::new(),
            counter: 0,
        }
    }

    fn kind(&self, path: &str) -> PathKind {
        self.kinds.get(path).copied().unwrap_or(PathKind::Missing)
    }

    fn ok(stdout: Vec<u8>) -> Reply {
        Reply::Ran(ProcessOutcome::Exited { success: true, stdout, stderr: Vec::new() })
    }

    fn fail(stderr: &str) -> Reply {
        Reply::Ran(ProcessOutcome::Exited { success: false, stdout: Vec::new(), stderr: stderr.as_bytes().to_vec() })
    }

    fn answer(&mut self, request: &Request) -> Reply {
        self.requests.push(format!("{request:?}"));
        match request {
            Request::Inspect(path) => Reply::Kind(self.kind(path)),
            Request::Canonicalize(paths) => Reply::Canonical(
                paths
                    .iter()
                    .map(|p| if self.kind(p) == PathKind::Missing { Err("missing".to_owned()) } else { Ok(format!("/abs/{p}")) })
                    .collect(),
            ),
            Request::Run(invocation) => {
                let args = &invocation.args;
                if invocation.executable == "pdftoppm" {
                    self.log.push(format!("{},{},{}", args[1], args[3], args[5]));
                    if !self.render_ok {
                        return World::fail("render failure");
                    }
                    let prefix = &args[8];
                    self.kinds.insert(format!("{prefix}-{}.png", args[1]), PathKind::File);
                    return World::ok(Vec::new());
                }
                if args[0] == "--show-npages" {
                    if self.readable { World::ok(format!("{}\n", self.pages).into_bytes()) } else { World::fail("invalid pdf") }
                } else if args[0] == "--json" {
                    self.json_called = true;
                    World::ok(self.json.clone())
                } else if args[0] == "--empty" {
                    self.kinds.insert(args[args.len() - 1].clone(), PathKind::File);
                    World::ok(Vec::new())
                } else {
                    self.log.push(args[3].clone());
                    if self.extract_ok { World::ok(Vec::new()) } else { World::fail("extract failure") }
                }
            }
            Request::CreateTempFile(dir) => {
                self.counter += 1;
                let path = format!("{dir}/.nata-{}", self.counter);
                self.kinds.insert(path.clone(), PathKind::File);
                Reply::Created(Ok(path))
            }
            Request::CreateTempDir(dir) => {
                self.counter += 1;
                let path = format!("{dir}/.tmp{}", self.counter);
                self.kinds.insert(path.clone(), PathKind::Directory);
                Reply::Created(Ok(path))
            }
            Request::CreateDirAll(dir) => {
                self.kinds.insert(dir.clone(), PathKind::Directory);
                Reply::Io(Ok(()))
            }
            Request::Persist { temp, target } | Request::Rename { from: temp, to: target } => {
                self.kinds.remove(temp);
                self.kinds.insert(target.clone(), PathKind::File);
                Reply::Io(Ok(()))
            }
            Request::ListDir(dir) => {
                let prefix = format!("{dir}/");
                Reply::Listing(Some(
                    self.kinds
                        .keys()
                        .filter(|k| k.starts_with(&prefix) && !k[prefix.len()..].contains('/'))
                        .cloned()
                        .collect(),
                ))
            }
            Request::Info(_) => Reply::Ack,
            Request::Finish(_) => panic!("a finished run asks nothing"),
        }
    }
}

fn common(strict: bool) -> CommonOptions {
    CommonOptions { qpdf: None, pdftoppm: None, strict, quiet: false, verbose: false }
}

fn qpdf() -> QpdfRunner {
    QpdfRunner::new("qpdf".to_owned())
}

fn run_merge(world: &mut World, args: MergeArgs, strict: bool) -> Result<(), AppError> {
    let (mut run, mut request) = nata::merge::run(args, &common(strict), &qpdf());
    loop {
        if let Request::Finish(result) = request {
            return result;
        }
        let reply = world.answer(&request);
        assert!(run.accepts(&reply));
        request = run.resume(reply);
    }
}

fn run_extract(world: &mut World, args: ExtractArgs, strict: bool) -> Result<(), AppError> {
    let (mut run, mut request) = nata::extract::run(args, &common(strict), &qpdf());
    loop {
        if let Request::Finish(result) = request {
            return result;
        }
        let reply = world.answer(&request);
        assert!(run.accepts(&reply));
        request = run.resume(reply);
    }
}

fn run_split(world: &mut World, args: SplitArgs, strict: bool) -> Result<(), AppError> {
    let (mut run, mut request) = nata::split::run(args, &common(strict), &qpdf());
    loop {
        if let Request::Finish(result) = request {
            return result;
        }
        let reply = world.answer(&request);
        assert!(run.accepts(&reply));
        request = run.resume(reply);
    }
}

fn run_render(world: &mut World, args: RenderArgs, strict: bool) -> Result<(), AppError> {
    let pdftoppm = PdftoppmRunner::new("pdftoppm".to_owned());
    let (mut run, mut request) = nata::render::run(args, &common(strict), &qpdf(), &pdftoppm);
    loop {
        if let Request::Finish(result) = request {
            return result;
        }
        let reply = world.answer(&request);
        assert!(run.accepts(&reply));
        request = run.resume(reply);
    }
}

fn split_args(ranges: &[&str], every: Option<u32>, each_page: bool, overwrite: bool) -> SplitArgs {
    SplitArgs {
        input: "w/input.pdf".to_owned(),
        ranges: ranges.iter().map(|r| r.to_string()).collect(),
        every,
        each_page,
        output_dir: "w/nested/out".to_owned(),
        overwrite,
    }
}

fn render_args(pages: &str, overwrite: bool) -> RenderArgs {
    RenderArgs {
        input: "w/input.pdf".to_owned(),
        pages: pages.to_owned(),
        output_dir: "w/out".to_owned(),
        dpi: 200,
        overwrite,
    }
}

#[test]
fn merge_requires_at_least_two_inputs() {
    let args = MergeArgs { inputs: vec!["one.pdf".to_owned()], output: "out.pdf".to_owned(), overwrite: false };
    let (_, request) = nata::merge::run(args, &common(false), &qpdf());
    assert!(matches!(request, Request::Finish(Err(AppError::MergeRequiresAtLeastTwoInputs))));
}

#[test]
fn merge_writes_all_inputs_through_a_temporary_file() {
    let mut world = World::new(2);
    world.kinds.insert("w/second.pdf".to_owned(), PathKind::File);
    let args = MergeArgs {
        inputs: vec!["w/input.pdf".to_owned(), "w/second.pdf".to_owned()],
        output: "w/out.pdf".to_owned(),
        overwrite: false,
    };
    run_merge(&mut world, args, false).expect("merge should succeed");
    assert_eq!(world.kind("w/out.pdf"), PathKind::File);
    assert!(world.requests.iter().any(|r| r.contains("--empty") && r.contains("w/second.pdf")));
    assert!(!world.kinds.keys().any(|k| k.contains(".nata-")));
}

#[test]
fn merge_output_that_is_an_input_is_refused() {
    let mut world = World::new(2);
    world.kinds.insert("w/second.pdf".to_owned(), PathKind::File);
    let args = MergeArgs {
        inputs: vec!["w/input.pdf".to_owned(), "w/second.pdf".to_owned()],
        output: "w/second.pdf".to_owned(),
        overwrite: true,
    };
    assert!(matches!(run_merge(&mut world, args, false), Err(AppError::OutputPathMatchesInput { .. })));
}

#[test]
fn merge_keeps_input_pdf_error_class_in_strict_mode() {
    let mut world = World::new(2);
    world.readable = false;
    world.kinds.insert("w/input-b.pdf".to_owned(), PathKind::File);
    let args = MergeArgs {
        inputs: vec!["w/input.pdf".to_owned(), "w/input-b.pdf".to_owned()],
        output: "w/out.pdf".to_owned(),
        overwrite: false,
    };
    assert!(matches!(
        run_merge(&mut world, args, true),
        Err(AppError::InputPdfInvalid { path, .. }) if path == "w/input.pdf"
    ));
    assert!(!world.json_called, "strict inspection should not run first");
}

#[test]
fn merge_stops_on_strict_violation() {
    let mut world = World::new(2);
    world.json = br#"{"outlines":{"first":"1 0 R"}}"#.to_vec();
    world.kinds.insert("w/second.pdf".to_owned(), PathKind::File);
    let args = MergeArgs {
        inputs: vec!["w/input.pdf".to_owned(), "w/second.pdf".to_owned()],
        output: "w/out.pdf".to_owned(),
        overwrite: false,
    };
    match run_merge(&mut world, args, true) {
        Err(error @ AppError::StrictViolation { .. }) => assert_eq!(error.exit_code().code(), 5),
        other => panic!("unexpected result: {other:?}"),
    }
    assert_eq!(world.kind("w/out.pdf"), PathKind::Missing);
}

#[test]
fn extract_writes_the_selected_pages() {
    let mut world = World::new(6);
    let args = ExtractArgs {
        input: "w/input.pdf".to_owned(),
        pages: "odd,last".to_owned(),
        output: "w/out.pdf".to_owned(),
        overwrite: false,
    };
    run_extract(&mut world, args, false).expect("extract should succeed");
    assert_eq!(world.log, vec!["1-z:odd,z"]);
    assert_eq!(world.kind("w/out.pdf"), PathKind::File);
}

#[test]
fn extract_checks_pages_against_the_document() {
    let mut world = World::new(3);
    let args = ExtractArgs {
        input: "w/input.pdf".to_owned(),
        pages: "2-5".to_owned(),
        output: "w/out.pdf".to_owned(),
        overwrite: false,
    };
    assert!(matches!(
        run_extract(&mut world, args, false),
        Err(AppError::PageOutOfRange { page: 5, total_pages: 3 })
    ));
    assert!(world.log.is_empty());
}

#[test]
fn extract_does_not_leave_output_on_qpdf_failure() {
    let mut world = World::new(3);
    world.extract_ok = false;
    let args = ExtractArgs {
        input: "w/input.pdf".to_owned(),
        pages: "1".to_owned(),
        output: "w/out.pdf".to_owned(),
        overwrite: false,
    };
    assert!(matches!(
        run_extract(&mut world, args, false),
        Err(AppError::QpdfCommandFailed { operation, .. }) if operation == "extract_pages"
    ));
    assert_eq!(world.kind("w/out.pdf"), PathKind::Missing);
}

#[test]
fn missing_extract_input_is_reported() {
    let mut world = World::new(3);
    let args = ExtractArgs {
        input: "w/absent.pdf".to_owned(),
        pages: "1".to_owned(),
        output: "w/out.pdf".to_owned(),
        overwrite: false,
    };
    assert!(matches!(run_extract(&mut world, args, true), Err(AppError::InputPdfNotFound { .. })));
}

#[test]
fn split_creates_missing_output_directory() {
    let mut world = World::new(3);
    run_split(&mut world, split_args(&[], Some(2), false, false), false).expect("split should succeed");
    assert_eq!(world.kind("w/nested/out"), PathKind::Directory);
    assert_eq!(world.kind("w/nested/out/input-1-2.pdf"), PathKind::File);
    assert_eq!(world.kind("w/nested/out/input-3.pdf"), PathKind::File);
}

#[test]
fn split_rejects_existing_outputs_without_overwrite() {
    let mut world = World::new(2);
    world.kinds.insert("w/nested/out".to_owned(), PathKind::Directory);
    world.kinds.insert("w/nested/out/input-1.pdf".to_owned(), PathKind::File);
    let error = run_split(&mut world, split_args(&[], None, true, false), false).expect_err("existing output should be rejected");
    assert!(matches!(error, AppError::OutputAlreadyExists { .. }));
    assert!(world.log.is_empty());
}

#[test]
fn prepare_multiple_outputs_rejects_existing_files_without_overwrite() {
    let mut world = World::new(2);
    world.kinds.insert("w/nested/out".to_owned(), PathKind::Directory);
    world.kinds.insert("w/nested/out/input-2.pdf".to_owned(), PathKind::File);
    let error = run_split(&mut world, split_args(&[], None, true, false), false).expect_err("existing output should be rejected");
    assert!(matches!(error, AppError::OutputAlreadyExists { path } if path == "w/nested/out/input-2.pdf"));
}

#[test]
fn split_keeps_input_pdf_error_class_in_strict_mode() {
    let mut world = World::new(2);
    world.readable = false;
    assert!(matches!(
        run_split(&mut world, split_args(&[], None, true, false), true),
        Err(AppError::InputPdfInvalid { path, .. }) if path == "w/input.pdf"
    ));
    assert!(!world.json_called, "strict inspection should not run first");
}

#[test]
fn split_passes_expected_ranges_to_qpdf() {
    let mut world = World::new(5);
    run_split(&mut world, split_args(&["1-2", "3-last"], None, false, false), false).expect("split should succeed");
    assert!(world.log.contains(&"1-2".to_owned()));
    assert!(world.log.contains(&"3-z".to_owned()));
}

#[test]
fn split_over_an_existing_file_as_directory_is_refused() {
    let mut world = World::new(2);
    world.kinds.insert("w/nested/out".to_owned(), PathKind::File);
    assert!(matches!(
        run_split(&mut world, split_args(&[], None, true, false), false),
        Err(AppError::OutputPathNotDirectory { .. })
    ));
}

#[test]
fn render_creates_missing_output_directory_and_writes_pngs() {
    let mut world = World::new(4);
    run_render(&mut world, render_args("1,3,last", false), false).expect("render should succeed");
    assert_eq!(world.kind("w/out"), PathKind::Directory);
    assert_eq!(world.kind("w/out/input-1.png"), PathKind::File);
    assert_eq!(world.kind("w/out/input-3.png"), PathKind::File);
    assert_eq!(world.kind("w/out/input-4.png"), PathKind::File);
    assert!(world.log.contains(&"1,1,200".to_owned()));
    assert!(world.log.contains(&"3,3,200".to_owned()));
    assert!(world.log.contains(&"4,4,200".to_owned()));
}

#[test]
fn render_rejects_existing_outputs_without_overwrite() {
    let mut world = World::new(1);
    world.kinds.insert("w/out".to_owned(), PathKind::Directory);
    world.kinds.insert("w/out/input-1.png".to_owned(), PathKind::File);
    let error = run_render(&mut world, render_args("1", false), false).expect_err("existing output should be rejected");
    assert!(matches!(error, AppError::OutputAlreadyExists { .. }));
}

#[test]
fn render_overwrites_existing_outputs_when_requested() {
    let mut world = World::new(1);
    world.kinds.insert("w/out".to_owned(), PathKind::Directory);
    world.kinds.insert("w/out/input-1.png".to_owned(), PathKind::File);
    run_render(&mut world, render_args("1", true), false).expect("render should succeed");
    assert_eq!(world.kind("w/out/input-1.png"), PathKind::File);
    assert!(world.requests.iter().any(|r| r.contains("Persist") && r.contains("w/out/input-1.png")));
}

#[test]
fn render_keeps_input_pdf_error_class() {
    let mut world = World::new(1);
    world.readable = false;
    assert!(matches!(
        run_render(&mut world, render_args("1", false), true),
        Err(AppError::InputPdfInvalid { path, .. }) if path == "w/input.pdf"
    ));
    assert!(!world.json_called, "strict inspection should not run");
}

#[test]
fn render_does_not_leave_output_on_pdftoppm_failure() {
    let mut world = World::new(1);
    world.render_ok = false;
    let error = run_render(&mut world, render_args("1", false), false).expect_err("render should fail");
    assert!(matches!(error, AppError::PdftoppmCommandFailed { .. }));
    assert_eq!(world.kind("w/out/input-1.png"), PathKind::Missing);
}
