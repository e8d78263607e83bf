use vstd::prelude::*;

use crate::command_support::{lossy_text, spec_stderr_summary, stderr_summary, texts, utf8_lossy};
use crate::error::{AppError, ErrorView};
use crate::protocol::{Invocation, InvocationView, ProcessOutcome};
use crate::strict::{bad_json_message, qpdf_json_document, spec_features, StrictInspection};
use crate::text::{
    append_chars, chars_to_string, parse_u32, spec_parse_u32, str_chars, trim, trim_chars,
};

verus! {

/// Runs qpdf: builds its command lines and reads what its runs report.
#[derive(Debug, Clone)]
pub struct QpdfRunner {
    executable: String,
}

/// The name of the strict inspection in error messages.
pub open spec fn strict_operation() -> Seq<char> {
    "strict inspection (qpdf --json)"@
}

/// What `qpdf --show-npages` reports: the page count, or why the input is
/// not a readable PDF.
pub open spec fn spec_show_npages(input: Seq<char>, o: ProcessOutcome) -> Result<u32, ErrorView> {
    match o {
        ProcessOutcome::Failed(e) => Err(ErrorView::QpdfExecutionFailed("show_npages"@, e@)),
        ProcessOutcome::Exited { success, stdout, stderr } => if !success {
            Err(ErrorView::InputPdfInvalid(input, spec_stderr_summary("qpdf"@, stderr@)))
        } else {
            match spec_parse_u32(trim(lossy_text(stdout@))) {
                Some(n) => Ok(n),
                None => Err(
                    ErrorView::InputPdfInvalid(
                        input,
                        "unexpected qpdf --show-npages output: "@ + trim(lossy_text(stdout@)),
                    ),
                ),
            }
        },
    }
}

/// What a page-writing qpdf run (`operation`) reports: success, or why it failed.
pub open spec fn spec_qpdf_write(operation: Seq<char>, o: ProcessOutcome) -> Result<(), ErrorView> {
    match o {
        ProcessOutcome::Failed(e) => Err(ErrorView::QpdfExecutionFailed(operation, e@)),
        ProcessOutcome::Exited { success, stdout, stderr } => if !success {
            Err(ErrorView::QpdfCommandFailed(operation, spec_stderr_summary("qpdf"@, stderr@)))
        } else {
            Ok(())
        },
    }
}

/// What `qpdf --json` reports: the features of its document, or why the
/// inspection failed.
pub open spec fn spec_inspect_strict(o: ProcessOutcome) -> Result<Seq<crate::strict::StrictFeature>, ErrorView> {
    match o {
        ProcessOutcome::Failed(e) => Err(ErrorView::QpdfExecutionFailed(strict_operation(), e@)),
        ProcessOutcome::Exited { success, stdout, stderr } => if !success {
            Err(ErrorView::QpdfCommandFailed(strict_operation(), spec_stderr_summary("qpdf"@, stderr@)))
        } else {
            match qpdf_json_document(stdout@) {
                Ok(doc) => Ok(spec_features(doc)),
                Err(m) => Err(ErrorView::QpdfCommandFailed(strict_operation(), bad_json_message(m))),
            }
        },
    }
}

/// `qpdf --show-npages <input>`
pub open spec fn show_npages_view(exe: Seq<char>, input: Seq<char>) -> InvocationView {
    InvocationView { executable: exe, args: seq!["--show-npages"@, input], stdout_to_temp_file: false }
}

/// `qpdf --json <input>`, its output through a temporary file.
pub open spec fn inspect_strict_view(exe: Seq<char>, input: Seq<char>) -> InvocationView {
    InvocationView { executable: exe, args: seq!["--json"@, input], stdout_to_temp_file: true }
}

/// `qpdf <input> --pages . <range> -- <output>`
pub open spec fn extract_pages_view(exe: Seq<char>, input: Seq<char>, range: Seq<char>, output: Seq<char>) -> InvocationView {
    InvocationView {
        executable: exe,
        args: seq![input, "--pages"@, "."@, range, "--"@, output],
        stdout_to_temp_file: false,
    }
}

/// `qpdf --empty --pages <inputs>... -- <output>`
pub open spec fn merge_pdfs_view(exe: Seq<char>, inputs: Seq<Seq<char>>, output: Seq<char>) -> InvocationView {
    InvocationView {
        executable: exe,
        args: seq!["--empty"@, "--pages"@] + inputs + seq!["--"@, output],
        stdout_to_temp_file: false,
    }
}

fn qpdf_write_result(operation: &str, outcome: &ProcessOutcome) -> (r: Result<(), AppError>)
    ensures
        match (r, spec_qpdf_write(operation@, *outcome)) {
            (Ok(()), Ok(())) => true,
            (Err(e), Err(v)) => e@ == v,
            _ => false,
        },
{
    match outcome {
        ProcessOutcome::Failed(e) => Err(
            AppError::QpdfExecutionFailed { operation: operation.to_owned(), source: e.clone() },
        ),
        ProcessOutcome::Exited { success, stdout: _, stderr } => {
            if !*success {
                Err(
                    AppError::QpdfCommandFailed {
                        operation: operation.to_owned(),
                        detail: stderr_summary("qpdf", stderr.as_slice()),
                    },
                )
            } else {
                Ok(())
            }
        },
    }
}

impl QpdfRunner {
    pub fn new(executable: String) -> (r: QpdfRunner)
        ensures
            r.executable_view() == executable@,
    {
        QpdfRunner { executable }
    }

    /// The qpdf executable this runner starts.
    pub fn executable(&self) -> (r: &str)
        ensures
            r@ == self.executable_view(),
    {
        self.executable.as_str()
    }

    /// The qpdf executable this runner starts.
    pub closed spec fn executable_view(&self) -> Seq<char> {
        self.executable@
    }

    /// The run that counts the pages of `input`.
    pub fn show_npages_command(&self, input: &str) -> (r: Invocation)
        ensures
            r@ == show_npages_view(self.executable_view(), input@),
    {
        let r = Invocation {
            executable: self.executable.clone(),
            args: vec!["--show-npages".to_owned(), input.to_owned()],
            stdout_to_temp_file: false,
        };
        assert(r@.args =~= seq!["--show-npages"@, input@]);
        r
    }

    /// The page count that a `--show-npages` run of `input` reported.
    pub fn show_npages(&self, input: &str, outcome: &ProcessOutcome) -> (r: Result<u32, AppError>)
        ensures
            match (r, spec_show_npages(input@, *outcome)) {
                (Ok(n), Ok(m)) => n == m,
                (Err(e), Err(v)) => e@ == v,
                _ => false,
            },
    {
        match outcome {
            ProcessOutcome::Failed(e) => Err(
                AppError::QpdfExecutionFailed { operation: "show_npages".to_owned(), source: e.clone() },
            ),
            ProcessOutcome::Exited { success, stdout, stderr } => {
                if !*success {
                    return Err(
                        AppError::InputPdfInvalid {
                            path: input.to_owned(),
                            detail: stderr_summary("qpdf", stderr.as_slice()),
                        },
                    );
                }
                let text = trim_chars(&str_chars(utf8_lossy(stdout.as_slice()).as_str()));
                match parse_u32(&text) {
                    Some(n) => Ok(n),
                    None => {
                        let mut detail = str_chars("unexpected qpdf --show-npages output: ");
                        append_chars(&mut detail, &text);
                        Err(AppError::InputPdfInvalid { path: input.to_owned(), detail: chars_to_string(&detail) })
                    },
                }
            },
        }
    }

    /// The run that dumps `input` as JSON for the strict inspection.
    pub fn inspect_strict_command(&self, input: &str) -> (r: Invocation)
        ensures
            r@ == inspect_strict_view(self.executable_view(), input@),
    {
        let r = Invocation {
            executable: self.executable.clone(),
            args: vec!["--json".to_owned(), input.to_owned()],
            stdout_to_temp_file: true,
        };
        assert(r@.args =~= seq!["--json"@, input@]);
        r
    }

    /// The strict inspection of what a `--json` run reported.
    pub fn inspect_strict_features(&self, outcome: &ProcessOutcome) -> (r: Result<StrictInspection, AppError>)
        ensures
            match (r, spec_inspect_strict(*outcome)) {
                (Ok(i), Ok(fs)) => i@ == fs,
                (Err(e), Err(v)) => e@ == v,
                _ => false,
            },
    {
        match outcome {
            ProcessOutcome::Failed(e) => Err(
                AppError::QpdfExecutionFailed {
                    operation: "strict inspection (qpdf --json)".to_owned(),
                    source: e.clone(),
                },
            ),
            ProcessOutcome::Exited { success, stdout, stderr } => {
                if !*success {
                    return Err(
                        AppError::QpdfCommandFailed {
                            operation: "strict inspection (qpdf --json)".to_owned(),
                            detail: stderr_summary("qpdf", stderr.as_slice()),
                        },
                    );
                }
                match StrictInspection::from_qpdf_json_reader(stdout.as_slice()) {
                    Ok(i) => Ok(i),
                    Err(detail) => Err(
                        AppError::QpdfCommandFailed {
                            operation: "strict inspection (qpdf --json)".to_owned(),
                            detail,
                        },
                    ),
                }
            },
        }
    }

    /// The run that writes the pages `page_range` of `input` to `output`.
    pub fn extract_pages_command(&self, input: &str, page_range: &str, output: &str) -> (r: Invocation)
        ensures
            r@ == extract_pages_view(self.executable_view(), input@, page_range@, output@),
    {
        let r = Invocation {
            executable: self.executable.clone(),
            args: vec![
                input.to_owned(),
                "--pages".to_owned(),
                ".".to_owned(),
                page_range.to_owned(),
                "--".to_owned(),
                output.to_owned(),
            ],
            stdout_to_temp_file: false,
        };
        assert(r@.args =~= seq![input@, "--pages"@, "."@, page_range@, "--"@, output@]);
        r
    }

    /// The result of a page extraction run.
    pub fn extract_pages(&self, outcome: &ProcessOutcome) -> (r: Result<(), AppError>)
        ensures
            match (r, spec_qpdf_write("extract_pages"@, *outcome)) {
                (Ok(()), Ok(())) => true,
                (Err(e), Err(v)) => e@ == v,
                _ => false,
            },
    {
        qpdf_write_result("extract_pages", outcome)
    }

    /// The run that writes all pages of `inputs`, in order, to `output`.
    pub fn merge_pdfs_command(&self, inputs: &Vec<String>, output: &str) -> (r: Invocation)
        ensures
            r@ == merge_pdfs_view(self.executable_view(), texts(inputs@), output@),
    {
        let mut args: Vec<String> = vec!["--empty".to_owned(), "--pages".to_owned()];
        let mut i: usize = 0;
        while i < inputs.len()
            invariant
                i <= inputs.len(),
                args@.len() == i + 2,
                texts(args@) == seq!["--empty"@, "--pages"@] + texts(inputs@).take(i as int),
            decreases inputs.len() - i,
        {
            let ghost before = texts(args@);
            let item = inputs[i].clone();
            assert(item@ == inputs@[i as int]@);
            args.push(item);
            assert(texts(args@) =~= before.push(item@));
            i += 1;
            assert(texts(args@) =~= seq!["--empty"@, "--pages"@] + texts(inputs@).take(i as int));
        }
        assert(texts(inputs@).take(inputs.len() as int) =~= texts(inputs@));
        args.push("--".to_owned());
        args.push(output.to_owned());
        let r = Invocation { executable: self.executable.clone(), args, stdout_to_temp_file: false };
        assert(r@.args =~= seq!["--empty"@, "--pages"@] + texts(inputs@) + seq!["--"@, output@]);
        r
    }

    /// The result of a merge run.
    pub fn merge_pdfs(&self, outcome: &ProcessOutcome) -> (r: Result<(), AppError>)
        ensures
            match (r, spec_qpdf_write("merge_pdfs"@, *outcome)) {
                (Ok(()), Ok(())) => true,
                (Err(e), Err(v)) => e@ == v,
                _ => false,
            },
    {
        qpdf_write_result("merge_pdfs", outcome)
    }
}

} // verus!
