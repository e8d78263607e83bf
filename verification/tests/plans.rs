use std::collections::HashSet;

use nata::cli::{RenderArgs, SplitArgs};
use nata::error::AppError;
use nata::render::build_render_plan;
use nata::split::{build_chunk_entries, build_split_plan};

fn split_args(ranges: &[&str], every: Option<u32>, each_page: bool) -> SplitArgs {
    SplitArgs {
        input: "input.pdf".to_owned(),
        ranges: ranges.iter().map(|r| r.to_string()).collect(),
        every,
        each_page,
        output_dir: "work/out".to_owned(),
        overwrite: false,
    }
}

fn render_args(pages: &str) -> RenderArgs {
    RenderArgs {
        input: "input.pdf".to_owned(),
        pages: pages.to_owned(),
        output_dir: "work/out".to_owned(),
        dpi: 150,
        overwrite: false,
    }
}

#[test]
fn each_page_plan_creates_one_output_per_page() {
    let args = split_args(&[], None, true);
    let plan = build_split_plan(&args, 3).expect("plan should build");
    let outputs = plan.iter().map(|entry| entry.file_name.clone()).collect::<Vec<_>>();
    assert_eq!(outputs, vec!["input-1.pdf", "input-2.pdf", "input-3.pdf"]);
}

#[test]
fn every_plan_keeps_last_partial_chunk() {
    let args = split_args(&[], Some(2), false);
    let plan = build_split_plan(&args, 5).expect("plan should build");
    let outputs = plan.iter().map(|entry| entry.file_name.clone()).collect::<Vec<_>>();
    let ranges = plan.iter().map(|entry| entry.page_range.clone()).collect::<Vec<_>>();
    assert_eq!(outputs, vec!["input-1-2.pdf", "input-3-4.pdf", "input-5.pdf"]);
    assert_eq!(ranges, vec!["1-2", "3-4", "5-5"]);
}

#[test]
fn ranges_plan_uses_independent_outputs() {
    let args = split_args(&["1-2", "3-last"], None, false);
    let plan = build_split_plan(&args, 5).expect("plan should build");
    let outputs = plan.iter().map(|entry| entry.file_name.clone()).collect::<Vec<_>>();
    let ranges = plan.iter().map(|entry| entry.page_range.clone()).collect::<Vec<_>>();
    assert_eq!(outputs, vec!["input-1-2.pdf", "input-3-last.pdf"]);
    assert_eq!(ranges, vec!["1-2", "3-z"]);
}

#[test]
fn ranges_reject_odd_even_specs() {
    let args = split_args(&["odd"], None, false);
    let error = build_split_plan(&args, 5).expect_err("odd should be rejected");
    assert!(matches!(error, AppError::OddEvenNotAllowed));
}

#[test]
fn duplicate_labels_receive_numeric_suffixes() {
    let args = split_args(&["1,2", "1 , 2"], None, false);
    let plan = build_split_plan(&args, 3).expect("plan should build");
    let outputs = plan.iter().map(|entry| entry.file_name.clone()).collect::<Vec<_>>();
    assert_eq!(outputs, vec!["input-1_2.pdf", "input-1_2-2.pdf"]);
}

#[test]
fn duplicate_suffixes_avoid_colliding_with_independent_labels() {
    let args = split_args(&["1,2", "1 , 2", "1,2-2"], None, false);
    let plan = build_split_plan(&args, 3).expect("plan should build");
    let outputs = plan.iter().map(|entry| entry.file_name.clone()).collect::<Vec<_>>();
    assert_eq!(outputs, vec!["input-1_2.pdf", "input-1_2-2.pdf", "input-1_2-2-2.pdf"]);
}

#[test]
fn duplicate_suffixes_keep_incrementing_until_unused_name_is_found() {
    let args = split_args(&["1,2", "1 , 2", "1, 2", "1,2 "], None, false);
    let plan = build_split_plan(&args, 4).expect("plan should build");
    let outputs = plan.iter().map(|entry| entry.file_name.clone()).collect::<Vec<_>>();
    assert_eq!(
        outputs,
        vec!["input-1_2.pdf", "input-1_2-2.pdf", "input-1_2-3.pdf", "input-1_2-4.pdf"]
    );
}

#[test]
fn split_plan_produces_unique_output_paths() {
    let args = split_args(&["1,2", "1 , 2", "1,2-2"], None, false);
    let plan = build_split_plan(&args, 3).expect("plan should build");
    let outputs = plan.iter().map(|entry| entry.output_path.clone()).collect::<HashSet<_>>();
    assert_eq!(outputs.len(), plan.len());
}

#[test]
fn invalid_split_plan_does_not_create_output_directory() {
    let args = split_args(&["odd"], None, false);
    let error = build_split_plan(&args, 5).expect_err("odd should be rejected");
    assert!(matches!(error, AppError::OddEvenNotAllowed));
}

#[test]
fn split_plan_outputs_live_in_the_output_directory() {
    let args = split_args(&["2"], None, false);
    let plan = build_split_plan(&args, 3).expect("plan should build");
    assert_eq!(plan.len(), 1);
    assert!(plan[0].output_path.starts_with("work/out"));
    assert!(plan[0].output_path.ends_with("input-2.pdf"));
    assert_eq!(plan[0].page_range, "2");
}

#[test]
fn ranges_labels_are_sanitized() {
    let args = split_args(&[" 1 - 2 , last ", "   "], None, false);
    let error = build_split_plan(&args, 4).expect_err("blank spec should be rejected");
    assert!(matches!(error, AppError::InvalidPageSpec(_)));

    let args = split_args(&["1-2,last"], None, false);
    let plan = build_split_plan(&args, 4).expect("plan should build");
    assert_eq!(plan[0].file_name, "input-1-2_last.pdf");
    assert_eq!(plan[0].page_range, "1-2,z");
}

#[test]
fn split_stem_comes_from_the_input_file_name() {
    let mut args = split_args(&[], None, true);
    args.input = "docs/report.final.pdf".to_owned();
    let plan = build_split_plan(&args, 1).expect("plan should build");
    assert_eq!(plan[0].file_name, "report.final-1.pdf");
}

#[test]
fn split_plan_of_empty_document_is_empty() {
    let args = split_args(&[], Some(3), false);
    let plan = build_split_plan(&args, 0).expect("plan should build");
    assert!(plan.is_empty());
}

#[test]
fn split_ranges_out_of_range_are_refused() {
    let args = split_args(&["2-9"], None, false);
    let error = build_split_plan(&args, 3).expect_err("range should be refused");
    assert!(matches!(error, AppError::PageOutOfRange { page: 9, total_pages: 3 }));
}

#[test]
fn render_plan_defaults_to_page_numbered_pngs() {
    let args = render_args("1,3,last");
    let plan = build_render_plan(&args, 5).expect("plan should build");
    let outputs = plan.iter().map(|entry| entry.file_name.clone()).collect::<Vec<_>>();
    let pages = plan.iter().map(|entry| entry.page).collect::<Vec<_>>();
    assert_eq!(outputs, vec!["input-1.png", "input-3.png", "input-5.png"]);
    assert_eq!(pages, vec![1, 3, 5]);
}

#[test]
fn render_plan_adds_suffixes_for_duplicate_pages() {
    let args = render_args("1,1,1");
    let plan = build_render_plan(&args, 3).expect("plan should build");
    let outputs = plan.iter().map(|entry| entry.file_name.clone()).collect::<Vec<_>>();
    assert_eq!(outputs, vec!["input-1.png", "input-1-2.png", "input-1-3.png"]);
}

#[test]
fn render_plan_produces_unique_output_paths() {
    let args = render_args("1,1,2,2");
    let plan = build_render_plan(&args, 3).expect("plan should build");
    let outputs = plan.iter().map(|entry| entry.output_path.clone()).collect::<HashSet<_>>();
    assert_eq!(outputs.len(), plan.len());
}

#[test]
fn render_plan_accepts_parity_and_refuses_empty_selection() {
    let plan = build_render_plan(&render_args("even"), 4).expect("plan should build");
    let pages = plan.iter().map(|entry| entry.page).collect::<Vec<_>>();
    assert_eq!(pages, vec![2, 4]);
    let error = build_render_plan(&render_args("even"), 1).expect_err("empty selection");
    assert!(matches!(error, AppError::EmptyPageSelection));
}

#[test]
fn chunk_entries_cut_the_document_in_runs() {
    let stem: Vec<char> = "doc".chars().collect();
    let (bases, ranges) = build_chunk_entries(&stem, 5, 2);
    let bases: Vec<String> = bases.into_iter().map(|b| b.into_iter().collect()).collect();
    let ranges: Vec<String> = ranges.into_iter().map(|r| r.into_iter().collect()).collect();
    assert_eq!(bases, vec!["doc-1-2", "doc-3-4", "doc-5"]);
    assert_eq!(ranges, vec!["1-2", "3-4", "5-5"]);
    let (bases, ranges) = build_chunk_entries(&stem, 0, 3);
    assert!(bases.is_empty() && ranges.is_empty());
}

#[test]
fn render_plan_names_come_from_the_input_stem() {
    let mut args = render_args("1,2");
    args.input = "dir/sub/scan.v2.pdf".to_owned();
    let plan = build_render_plan(&args, 3).expect("plan");
    let names: Vec<&str> = plan.iter().map(|e| e.file_name.as_str()).collect();
    assert_eq!(names, vec!["scan.v2-1.png", "scan.v2-2.png"]);
}
