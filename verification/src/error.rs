use vstd::prelude::*;

use crate::exit_code::ExitCode;

verus! {

/// Every way a command of the tool can fail. Paths are carried as the text
/// the user gave; failures of the operating system are carried as the text
/// of the error it reported.
#[derive(Debug, Clone, PartialEq, Eq)]
pub enum AppError {
    QpdfNotFound,
    QpdfNotExecutable { path: String },
    QpdfExecutionFailed { operation: String, source: String },
    QpdfCommandFailed { operation: String, detail: String },
    PdftoppmNotFound,
    PdftoppmNotExecutable { path: String },
    PdftoppmExecutionFailed { operation: String, source: String },
    PdftoppmCommandFailed { operation: String, detail: String },
    MergeRequiresAtLeastTwoInputs,
    InputPdfNotFound { path: String },
    InputPdfNotFile { path: String },
    InputPdfInvalid { path: String, detail: String },
    OutputAlreadyExists { path: String },
    OutputPathNotFile { path: String },
    OutputPathNotDirectory { path: String },
    OutputPathMatchesInput { path: String },
    OutputDirectoryNotFound { path: String },
    OutputDirectoryCreateFailed { path: String, source: String },
    TempOutputCreateFailed { path: String, source: String },
    OutputFinalizeFailed { path: String, source: String },
    InvalidPageSpec(String),
    PageOutOfRange { page: u32, total_pages: u32 },
    OddEvenNotAllowed,
    SinglePageRequired,
    EmptyPageSelection,
    StrictViolation { path: String, detail: String },
}

/// The failure class of an error: backend, input, output, arguments or strict mode.
pub open spec fn error_class(e: AppError) -> ExitCode {
    match e {
        AppError::QpdfNotFound
        | AppError::QpdfNotExecutable { .. }
        | AppError::QpdfExecutionFailed { .. }
        | AppError::QpdfCommandFailed { .. }
        | AppError::PdftoppmNotFound
        | AppError::PdftoppmNotExecutable { .. }
        | AppError::PdftoppmExecutionFailed { .. }
        | AppError::PdftoppmCommandFailed { .. } => ExitCode::BackendError,
        AppError::InputPdfNotFound { .. }
        | AppError::InputPdfNotFile { .. }
        | AppError::InputPdfInvalid { .. } => ExitCode::InputPdfError,
        AppError::OutputAlreadyExists { .. }
        | AppError::OutputPathNotFile { .. }
        | AppError::OutputPathNotDirectory { .. }
        | AppError::OutputPathMatchesInput { .. }
        | AppError::OutputDirectoryNotFound { .. }
        | AppError::OutputDirectoryCreateFailed { .. }
        | AppError::TempOutputCreateFailed { .. }
        | AppError::OutputFinalizeFailed { .. } => ExitCode::OutputFileError,
        AppError::InvalidPageSpec(_)
        | AppError::PageOutOfRange { .. }
        | AppError::OddEvenNotAllowed
        | AppError::SinglePageRequired
        | AppError::EmptyPageSelection
        | AppError::MergeRequiresAtLeastTwoInputs => ExitCode::CliArgumentError,
        AppError::StrictViolation { .. } => ExitCode::StrictViolation,
    }
}

impl AppError {
    /// `self` is `InvalidPageSpec` with the message `m`.
    pub open spec fn is_invalid_page_spec(self, m: Seq<char>) -> bool {
        self@ == ErrorView::InvalidPageSpec(m)
    }

    pub fn exit_code(&self) -> (c: ExitCode)
        ensures
            c == error_class(*self),
    {
        match self {
            AppError::QpdfNotFound
            | AppError::QpdfNotExecutable { .. }
            | AppError::QpdfExecutionFailed { .. }
            | AppError::QpdfCommandFailed { .. }
            | AppError::PdftoppmNotFound
            | AppError::PdftoppmNotExecutable { .. }
            | AppError::PdftoppmExecutionFailed { .. }
            | AppError::PdftoppmCommandFailed { .. } => ExitCode::BackendError,
            AppError::InputPdfNotFound { .. }
            | AppError::InputPdfNotFile { .. }
            | AppError::InputPdfInvalid { .. } => ExitCode::InputPdfError,
            AppError::OutputAlreadyExists { .. }
            | AppError::OutputPathNotFile { .. }
            | AppError::OutputPathNotDirectory { .. }
            | AppError::OutputPathMatchesInput { .. }
            | AppError::OutputDirectoryNotFound { .. }
            | AppError::OutputDirectoryCreateFailed { .. }
            | AppError::TempOutputCreateFailed { .. }
            | AppError::OutputFinalizeFailed { .. } => ExitCode::OutputFileError,
            AppError::InvalidPageSpec(_)
            | AppError::PageOutOfRange { .. }
            | AppError::OddEvenNotAllowed
            | AppError::SinglePageRequired
            | AppError::EmptyPageSelection
            | AppError::MergeRequiresAtLeastTwoInputs => ExitCode::CliArgumentError,
            AppError::StrictViolation { .. } => ExitCode::StrictViolation,
        }
    }
}

/// An error never maps to the success status: every failure ends the
/// process with a non-zero code.
pub proof fn lemma_error_never_succeeds(e: AppError)
    ensures
        error_class(e) != ExitCode::Success,
        error_class(e).spec_code() != 0,
{
}

/// An error with its texts as character sequences.
pub enum ErrorView {
    QpdfNotFound,
    QpdfNotExecutable(Seq<char>),
    QpdfExecutionFailed(Seq<char>, Seq<char>),
    QpdfCommandFailed(Seq<char>, Seq<char>),
    PdftoppmNotFound,
    PdftoppmNotExecutable(Seq<char>),
    PdftoppmExecutionFailed(Seq<char>, Seq<char>),
    PdftoppmCommandFailed(Seq<char>, Seq<char>),
    MergeRequiresAtLeastTwoInputs,
    InputPdfNotFound(Seq<char>),
    InputPdfNotFile(Seq<char>),
    InputPdfInvalid(Seq<char>, Seq<char>),
    OutputAlreadyExists(Seq<char>),
    OutputPathNotFile(Seq<char>),
    OutputPathNotDirectory(Seq<char>),
    OutputPathMatchesInput(Seq<char>),
    OutputDirectoryNotFound(Seq<char>),
    OutputDirectoryCreateFailed(Seq<char>, Seq<char>),
    TempOutputCreateFailed(Seq<char>, Seq<char>),
    OutputFinalizeFailed(Seq<char>, Seq<char>),
    InvalidPageSpec(Seq<char>),
    PageOutOfRange(u32, u32),
    OddEvenNotAllowed,
    SinglePageRequired,
    EmptyPageSelection,
    StrictViolation(Seq<char>, Seq<char>),
}

impl View for AppError {
    type V = ErrorView;

    open spec fn view(&self) -> ErrorView {
        match self {
            AppError::QpdfNotFound => ErrorView::QpdfNotFound,
            AppError::QpdfNotExecutable { path } => ErrorView::QpdfNotExecutable(path@),
            AppError::QpdfExecutionFailed { operation, source } => ErrorView::QpdfExecutionFailed(
                operation@,
                source@,
            ),
            AppError::QpdfCommandFailed { operation, detail } => ErrorView::QpdfCommandFailed(
                operation@,
                detail@,
            ),
            AppError::PdftoppmNotFound => ErrorView::PdftoppmNotFound,
            AppError::PdftoppmNotExecutable { path } => ErrorView::PdftoppmNotExecutable(path@),
            AppError::PdftoppmExecutionFailed { operation, source } => ErrorView::PdftoppmExecutionFailed(
                operation@,
                source@,
            ),
            AppError::PdftoppmCommandFailed { operation, detail } => ErrorView::PdftoppmCommandFailed(
                operation@,
                detail@,
            ),
            AppError::MergeRequiresAtLeastTwoInputs => ErrorView::MergeRequiresAtLeastTwoInputs,
            AppError::InputPdfNotFound { path } => ErrorView::InputPdfNotFound(path@),
            AppError::InputPdfNotFile { path } => ErrorView::InputPdfNotFile(path@),
            AppError::InputPdfInvalid { path, detail } => ErrorView::InputPdfInvalid(path@, detail@),
            AppError::OutputAlreadyExists { path } => ErrorView::OutputAlreadyExists(path@),
            AppError::OutputPathNotFile { path } => ErrorView::OutputPathNotFile(path@),
            AppError::OutputPathNotDirectory { path } => ErrorView::OutputPathNotDirectory(path@),
            AppError::OutputPathMatchesInput { path } => ErrorView::OutputPathMatchesInput(path@),
            AppError::OutputDirectoryNotFound { path } => ErrorView::OutputDirectoryNotFound(path@),
            AppError::OutputDirectoryCreateFailed { path, source } => ErrorView::OutputDirectoryCreateFailed(
                path@,
                source@,
            ),
            AppError::TempOutputCreateFailed { path, source } => ErrorView::TempOutputCreateFailed(
                path@,
                source@,
            ),
            AppError::OutputFinalizeFailed { path, source } => ErrorView::OutputFinalizeFailed(
                path@,
                source@,
            ),
            AppError::InvalidPageSpec(m) => ErrorView::InvalidPageSpec(m@),
            AppError::PageOutOfRange { page, total_pages } => ErrorView::PageOutOfRange(*page, *total_pages),
            AppError::OddEvenNotAllowed => ErrorView::OddEvenNotAllowed,
            AppError::SinglePageRequired => ErrorView::SinglePageRequired,
            AppError::EmptyPageSelection => ErrorView::EmptyPageSelection,
            AppError::StrictViolation { path, detail } => ErrorView::StrictViolation(path@, detail@),
        }
    }
}


/// Exit status 5 is reported exactly for a strict-mode violation.
pub proof fn lemma_strict_violation_status(e: AppError)
    ensures
        error_class(e).spec_code() == 5 <==> e is StrictViolation,
{
}

} // verus!
