use vstd::prelude::*;

verus! {

/// Process exit status of the tool, one value per failure class.
#[derive(Debug, Clone, Copy, PartialEq, Eq, Structural)]
pub enum ExitCode {
    Success,
    CliArgumentError,
    InputPdfError,
    OutputFileError,
    BackendError,
    StrictViolation,
}

impl ExitCode {
    /// The number that the process reports for this status.
    pub open spec fn spec_code(self) -> i32 {
        match self {
            ExitCode::Success => 0,
            ExitCode::CliArgumentError => 1,
            ExitCode::InputPdfError => 2,
            ExitCode::OutputFileError => 3,
            ExitCode::BackendError => 4,
            ExitCode::StrictViolation => 5,
        }
    }

    pub fn code(self) -> (c: i32)
        ensures
            c == self.spec_code(),
    {
        match self {
            ExitCode::Success => 0,
            ExitCode::CliArgumentError => 1,
            ExitCode::InputPdfError => 2,
            ExitCode::OutputFileError => 3,
            ExitCode::BackendError => 4,
            ExitCode::StrictViolation => 5,
        }
    }
}

impl ExitCode {
    /// The status when the command line cannot be run as given: success when
    /// the arguments only asked for help or the version, an argument error
    /// otherwise.
    pub fn for_unparsed_arguments(informational: bool) -> (c: ExitCode)
        ensures
            c == (if informational {
                ExitCode::Success
            } else {
                ExitCode::CliArgumentError
            }),
    {
        if informational {
            ExitCode::Success
        } else {
            ExitCode::CliArgumentError
        }
    }
}

/// Distinct statuses report distinct numbers, and only success reports zero.
pub proof fn lemma_codes_distinct(a: ExitCode, b: ExitCode)
    ensures
        a.spec_code() == b.spec_code() <==> a == b,
        a.spec_code() == 0 <==> a == ExitCode::Success,
{
}

} // verus!
