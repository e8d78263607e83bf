use vstd::prelude::*;

use crate::cli::{CommonOptions, ExtractArgs};
use crate::error::{AppError, ErrorView};
use crate::io_support::{
    compared_path, ensure_output_differs, lemma_outputs_differ, output_parent_dir, same_paths, spec_outputs_differ, spec_parent_dir,
    spec_validate_input_pdf, spec_validate_single_output, validate_input_pdf,
    validate_single_output, canon_views,
};
use crate::page_spec::{
    failure_view, spec_parse, spec_qpdf_range, spec_resolve, spec_validate_rules, PageExpr, PageFailure, PageSpec,
    PageSpecRules,
};
use crate::path_syntax::{parent_fact, same_path_fact};
use crate::protocol::{lex_below, PathKind, Reply, Request, RequestView};
use crate::qpdf_runner::{
    extract_pages_view, inspect_strict_view, show_npages_view, spec_inspect_strict, spec_qpdf_write,
    spec_show_npages, QpdfRunner,
};
use crate::strict::{enforce_on_input, spec_strict_outcome, strict_info, strict_info_message};

verus! {

/// Where an extraction stands: which answer it waits for.
#[derive(Debug, Clone, Copy, PartialEq, Eq, Structural)]
pub enum ExtractStage {
    CheckInput,
    StrictInfo,
    StrictInspect,
    Canonical,
    CountPages,
    ProbeParent,
    ProbeOutput,
    CreateTemp,
    Extract,
    Persist,
    Finished,
}

/// A running `extract`: it asks for outside work one request at a time and
/// decides from each answer what to ask next.
pub struct ExtractRun {
    args: ExtractArgs,
    strict: bool,
    verbose: bool,
    qpdf: QpdfRunner,
    parent: Option<String>,
    stage: ExtractStage,
    page_range: String,
    parent_kind: PathKind,
    temp: String,
    canonical: Ghost<Seq<Result<Seq<char>, Seq<char>>>>,
    same: Ghost<Seq<bool>>,
}

/// An extraction's state with its texts as character sequences. `canonical`
/// holds the canonical forms of the output and the input once they are
/// compared, and `same` what comparing them gave.
pub struct ExtractView {
    pub input: Seq<char>,
    pub pages: Seq<char>,
    pub output: Seq<char>,
    pub overwrite: bool,
    pub strict: bool,
    pub verbose: bool,
    pub qpdf: Seq<char>,
    pub parent: Option<Seq<char>>,
    pub stage: ExtractStage,
    pub page_range: Seq<char>,
    pub parent_kind: PathKind,
    pub temp: Seq<char>,
    pub canonical: Seq<Result<Seq<char>, Seq<char>>>,
    pub same: Seq<bool>,
}

impl View for ExtractRun {
    type V = ExtractView;

    closed spec fn view(&self) -> ExtractView {
        ExtractView {
            input: self.args.input@,
            pages: self.args.pages@,
            output: self.args.output@,
            overwrite: self.args.overwrite,
            strict: self.strict,
            verbose: self.verbose,
            qpdf: self.qpdf.executable_view(),
            parent: match self.parent {
                Some(p) => Some(p@),
                None => None,
            },
            stage: self.stage,
            page_range: self.page_range@,
            parent_kind: self.parent_kind,
            temp: self.temp@,
            canonical: self.canonical@,
            same: self.same@,
        }
    }
}

/// The page rules of `extract`: `odd`/`even` allowed, at least one page.
pub open spec fn extract_rules() -> PageSpecRules {
    PageSpecRules { allow_odd_even: true, require_single_page: false, allow_empty_result: false }
}

/// Inspections happen only in strict mode, the output differs from the input
/// by the canonical paths compared, and the output's directory is known once
/// the run is past counting pages.
pub open spec fn extract_wf(s: ExtractView) -> bool {
    &&& !s.strict ==> s.stage != ExtractStage::StrictInfo && s.stage != ExtractStage::StrictInspect
    &&& extract_compared(s) ==> s.canonical.len() == 2 && same_paths(
        compared_path(s.output, s.canonical[0]),
        s.canonical.skip(1),
        s.same,
    ) && spec_outputs_differ(s.output, seq![s.input], s.canonical.skip(1), s.same) is Ok
    &&& (s.stage is ProbeParent || s.stage is ProbeOutput || s.stage is CreateTemp || s.stage is Extract
        || s.stage is Persist) ==> spec_parse(s.pages) is Ok && s.page_range == spec_qpdf_range(
        spec_parse(s.pages)->Ok_0,
    )
    &&& match s.stage {
        ExtractStage::ProbeParent | ExtractStage::ProbeOutput | ExtractStage::CreateTemp | ExtractStage::Extract
        | ExtractStage::Persist => s.parent is Some,
        _ => true,
    }
}

/// The run is past the comparison of the output with the input.
pub open spec fn extract_compared(s: ExtractView) -> bool {
    !(s.stage is CheckInput || s.stage is StrictInfo || s.stage is StrictInspect || s.stage is Canonical
        || s.stage is Finished)
}

/// The answer that a stage waits for.
pub open spec fn extract_accepts(stage: ExtractStage, reply: Reply) -> bool {
    match stage {
        ExtractStage::CheckInput | ExtractStage::ProbeParent | ExtractStage::ProbeOutput => reply is Kind,
        ExtractStage::StrictInfo => reply is Ack,
        ExtractStage::StrictInspect | ExtractStage::CountPages | ExtractStage::Extract => reply is Ran,
        ExtractStage::Canonical => reply matches Reply::Canonical(cs) && cs@.len() == 2,
        ExtractStage::CreateTemp => reply is Created,
        ExtractStage::Persist => reply is Io,
        ExtractStage::Finished => false,
    }
}

/// `t` is `s` moved to `stage` with nothing else changed.
pub open spec fn extract_moved(s: ExtractView, t: ExtractView, stage: ExtractStage) -> bool {
    t == ExtractView { stage, ..s }
}

/// `t` and `req` end the extraction with the error `v`.
pub open spec fn extract_fails(s: ExtractView, t: ExtractView, req: RequestView, v: ErrorView) -> bool {
    extract_moved(s, t, ExtractStage::Finished) && req == RequestView::Finish(Err(v))
}

/// After the strict step: compare the output with the input.
pub open spec fn extract_to_canonical(s: ExtractView, t: ExtractView, req: RequestView) -> bool {
    extract_moved(s, t, ExtractStage::Canonical) && req == RequestView::Canonicalize(seq![s.output, s.input])
}

/// One step of `extract`: from the state `s` and the answer `reply` to the
/// state `t` and the next request `req`. The order is: the input must be a
/// file; in strict mode its document-level features are inspected; the output
/// must differ from the input; the pages are counted and the page
/// specification checked; the output's directory and path are checked; a
/// temporary file is made next to the output, qpdf writes the pages into it,
/// and it is moved onto the output. The first failure ends the run.
pub open spec fn extract_next(s: ExtractView, reply: Reply, t: ExtractView, req: RequestView) -> bool {
    match (s.stage, reply) {
        (ExtractStage::CheckInput, Reply::Kind(k)) => match spec_validate_input_pdf(s.input, k) {
            Err(v) => extract_fails(s, t, req, v),
            Ok(()) => if s.strict && s.verbose {
                extract_moved(s, t, ExtractStage::StrictInfo) && req == RequestView::Info(strict_info_message(s.input))
            } else if s.strict {
                extract_moved(s, t, ExtractStage::StrictInspect) && req == RequestView::Run(inspect_strict_view(s.qpdf, s.input))
            } else {
                extract_to_canonical(s, t, req)
            },
        },
        (ExtractStage::StrictInfo, Reply::Ack) => extract_moved(s, t, ExtractStage::StrictInspect) && req
            == RequestView::Run(inspect_strict_view(s.qpdf, s.input)),
        (ExtractStage::StrictInspect, Reply::Ran(o)) => match spec_strict_outcome(s.input, spec_inspect_strict(o)) {
            Err(v) => extract_fails(s, t, req, v),
            Ok(()) => extract_to_canonical(s, t, req),
        },
        (ExtractStage::Canonical, Reply::Canonical(cs)) => exists|same: Seq<bool>|
            same_paths(compared_path(s.output, canon_views(cs@)[0]), canon_views(cs@).skip(1), same)
                && match #[trigger] spec_outputs_differ(s.output, seq![s.input], canon_views(cs@).skip(1), same) {
                Err(v) => extract_fails(s, t, req, v),
                Ok(()) => t == ExtractView {
                    stage: ExtractStage::CountPages,
                    canonical: canon_views(cs@),
                    same,
                    ..s
                } && req == RequestView::Run(show_npages_view(s.qpdf, s.input)),
            },
        (ExtractStage::CountPages, Reply::Ran(o)) => match spec_show_npages(s.input, o) {
            Err(v) => extract_fails(s, t, req, v),
            Ok(total) => match spec_parse(s.pages) {
                Err(m) => extract_fails(s, t, req, ErrorView::InvalidPageSpec(m)),
                Ok(items) => match spec_validate_rules(items, total, extract_rules()) {
                    Err(f) => extract_fails(s, t, req, failure_view(f)),
                    Ok(_) => match s.parent {
                        None => extract_fails(s, t, req, ErrorView::OutputDirectoryNotFound(s.output)),
                        Some(p) => t == ExtractView { stage: ExtractStage::ProbeParent, page_range: spec_qpdf_range(items), ..s }
                            && req == RequestView::Inspect(p),
                    },
                },
            },
        },
        (ExtractStage::ProbeParent, Reply::Kind(k)) => t == ExtractView { stage: ExtractStage::ProbeOutput, parent_kind: k, ..s }
            && req == RequestView::Inspect(s.output),
        (ExtractStage::ProbeOutput, Reply::Kind(k)) => match spec_validate_single_output(
            s.output,
            s.parent->Some_0,
            s.parent_kind,
            k,
            s.overwrite,
        ) {
            Err(v) => extract_fails(s, t, req, v),
            Ok(()) => extract_moved(s, t, ExtractStage::CreateTemp) && req == RequestView::CreateTempFile(s.parent->Some_0),
        },
        (ExtractStage::CreateTemp, Reply::Created(r)) => match r {
            Err(e) => extract_fails(s, t, req, ErrorView::TempOutputCreateFailed(s.output, e@)),
            Ok(tmp) => t == ExtractView { stage: ExtractStage::Extract, temp: tmp@, ..s } && req == RequestView::Run(
                extract_pages_view(s.qpdf, s.input, s.page_range, tmp@),
            ),
        },
        (ExtractStage::Extract, Reply::Ran(o)) => match spec_qpdf_write("extract_pages"@, o) {
            Err(v) => extract_fails(s, t, req, v),
            Ok(()) => extract_moved(s, t, ExtractStage::Persist) && req == RequestView::Persist(s.temp, s.output),
        },
        (ExtractStage::Persist, Reply::Io(r)) => match r {
            Err(e) => extract_fails(s, t, req, ErrorView::OutputFinalizeFailed(s.output, e@)),
            Ok(()) => extract_moved(s, t, ExtractStage::Finished) && req == RequestView::Finish(Ok(())),
        },
        _ => false,
    }
}

fn finish_with(e: AppError) -> (r: Request)
    ensures
        r@ == RequestView::Finish(Err(e@)),
{
    Request::Finish(Err(e))
}

/// Starts `extract`: the first request checks the input.
pub fn run(args: ExtractArgs, common: &CommonOptions, qpdf: &QpdfRunner) -> (r: (ExtractRun, Request))
    ensures
        r.0@.input == args.input@,
        r.0@.pages == args.pages@,
        r.0@.output == args.output@,
        r.0@.overwrite == args.overwrite,
        r.0@.strict == common.strict,
        r.0@.verbose == (common.verbose && !common.quiet),
        r.0@.qpdf == qpdf.executable_view(),
        exists|parent: Option<Seq<char>>|
            parent_fact(args.output@, parent) && match #[trigger] spec_parent_dir(args.output@, parent) {
                Ok(d) => r.0@.parent == Some(d),
                Err(_) => r.0@.parent is None,
            },
        r.0@.stage == ExtractStage::CheckInput,
        extract_wf(r.0@),
        r.1@ == RequestView::Inspect(args.input@),
{
    let parent = match output_parent_dir(args.output.as_str()) {
        Ok(d) => Some(d),
        Err(_) => None,
    };
    let first = Request::Inspect(args.input.clone());
    let run = ExtractRun {
        args,
        strict: common.strict,
        verbose: common.verbose && !common.quiet,
        qpdf: QpdfRunner::new(qpdf.executable().to_owned()),
        parent,
        stage: ExtractStage::CheckInput,
        page_range: String::new(),
        parent_kind: PathKind::Missing,
        temp: String::new(),
        canonical: Ghost(Seq::empty()),
        same: Ghost(Seq::empty()),
    };
    (run, first)
}

impl ExtractRun {
    /// Whether `reply` is the kind of answer the run waits for.
    pub fn accepts(&self, reply: &Reply) -> (b: bool)
        ensures
            b == extract_accepts(self@.stage, *reply),
    {
        match self.stage {
            ExtractStage::CheckInput | ExtractStage::ProbeParent | ExtractStage::ProbeOutput => matches!(reply, Reply::Kind(_)),
            ExtractStage::StrictInfo => matches!(reply, Reply::Ack),
            ExtractStage::StrictInspect | ExtractStage::CountPages | ExtractStage::Extract => matches!(reply, Reply::Ran(_)),
            ExtractStage::Canonical => match reply {
                Reply::Canonical(cs) => cs.len() == 2,
                _ => false,
            },
            ExtractStage::CreateTemp => matches!(reply, Reply::Created(_)),
            ExtractStage::Persist => matches!(reply, Reply::Io(_)),
            ExtractStage::Finished => false,
        }
    }

    fn to_canonical(&mut self) -> (r: Request)
        ensures
            extract_to_canonical(old(self)@, final(self)@, r@),
    {
        self.stage = ExtractStage::Canonical;
        let paths = vec![self.args.output.clone(), self.args.input.clone()];
        assert(crate::command_support::texts(paths@) =~= seq![self@.output, self@.input]);
        Request::Canonicalize(paths)
    }

    fn fail(&mut self, e: AppError) -> (r: Request)
        ensures
            extract_fails(old(self)@, final(self)@, r@, e@),
    {
        self.stage = ExtractStage::Finished;
        finish_with(e)
    }

    /// Takes the answer to the last request and returns the next one.
    pub fn resume(&mut self, reply: Reply) -> (r: Request)
        requires
            extract_wf(old(self)@),
            extract_accepts(old(self)@.stage, reply),
        ensures
            extract_wf(final(self)@),
            extract_next(old(self)@, reply, final(self)@, r@),
    {
        match (self.stage, reply) {
            (ExtractStage::CheckInput, Reply::Kind(k)) => {
                match validate_input_pdf(self.args.input.as_str(), k) {
                    Err(e) => self.fail(e),
                    Ok(()) => {
                        if self.strict && self.verbose {
                            self.stage = ExtractStage::StrictInfo;
                            Request::Info(strict_info(self.args.input.as_str()))
                        } else if self.strict {
                            self.stage = ExtractStage::StrictInspect;
                            Request::Run(self.qpdf.inspect_strict_command(self.args.input.as_str()))
                        } else {
                            self.to_canonical()
                        }
                    },
                }
            },
            (ExtractStage::StrictInfo, Reply::Ack) => {
                self.stage = ExtractStage::StrictInspect;
                Request::Run(self.qpdf.inspect_strict_command(self.args.input.as_str()))
            },
            (ExtractStage::StrictInspect, Reply::Ran(o)) => {
                match enforce_on_input(self.args.input.as_str(), &self.qpdf, &o) {
                    Err(e) => self.fail(e),
                    Ok(()) => self.to_canonical(),
                }
            },
            (ExtractStage::Canonical, Reply::Canonical(cs)) => {
                let inputs = vec![self.args.input.clone()];
                assert(crate::command_support::texts(inputs@) =~= seq![self@.input]);
                let checked = ensure_output_differs(self.args.output.as_str(), &inputs, &cs);
                let ghost same = choose|same: Seq<bool>|
                    same_paths(compared_path(self.args.output@, canon_views(cs@)[0]), canon_views(cs@).skip(1), same)
                        && match (checked, #[trigger] spec_outputs_differ(
                        self.args.output@,
                        seq![self.args.input@],
                        canon_views(cs@).skip(1),
                        same,
                    )) {
                        (Ok(()), Ok(())) => true,
                        (Err(e), Err(v)) => e@ == v,
                        _ => false,
                    };
                match checked {
                    Err(e) => self.fail(e),
                    Ok(()) => {
                        self.canonical = Ghost(canon_views(cs@));
                        self.same = Ghost(same);
                        self.stage = ExtractStage::CountPages;
                        Request::Run(self.qpdf.show_npages_command(self.args.input.as_str()))
                    },
                }
            },
            (ExtractStage::CountPages, Reply::Ran(o)) => {
                let total = match self.qpdf.show_npages(self.args.input.as_str(), &o) {
                    Err(e) => return self.fail(e),
                    Ok(n) => n,
                };
                let spec = match PageSpec::parse(self.args.pages.as_str()) {
                    Err(e) => return self.fail(e),
                    Ok(s) => s,
                };
                let rules = PageSpecRules { allow_odd_even: true, require_single_page: false, allow_empty_result: false };
                match spec.validate_rules(total, rules) {
                    Err(e) => return self.fail(e),
                    Ok(_) => {},
                }
                let parent = match &self.parent {
                    None => {
                        let output = self.args.output.clone();
                        return self.fail(AppError::OutputDirectoryNotFound { path: output });
                    },
                    Some(p) => p.clone(),
                };
                self.page_range = spec.to_qpdf_range();
                self.stage = ExtractStage::ProbeParent;
                Request::Inspect(parent)
            },
            (ExtractStage::ProbeParent, Reply::Kind(k)) => {
                self.parent_kind = k;
                self.stage = ExtractStage::ProbeOutput;
                Request::Inspect(self.args.output.clone())
            },
            (ExtractStage::ProbeOutput, Reply::Kind(k)) => {
                let parent = match &self.parent {
                    Some(p) => p.clone(),
                    None => String::new(),
                };
                match validate_single_output(
                    self.args.output.as_str(),
                    parent.as_str(),
                    self.parent_kind,
                    k,
                    self.args.overwrite,
                ) {
                    Err(e) => self.fail(e),
                    Ok(()) => {
                        self.stage = ExtractStage::CreateTemp;
                        Request::CreateTempFile(parent)
                    },
                }
            },
            (ExtractStage::CreateTemp, Reply::Created(r)) => {
                match r {
                    Err(e) => {
                        let output = self.args.output.clone();
                        self.fail(AppError::TempOutputCreateFailed { path: output, source: e })
                    },
                    Ok(tmp) => {
                        let req = self.qpdf.extract_pages_command(
                            self.args.input.as_str(),
                            self.page_range.as_str(),
                            tmp.as_str(),
                        );
                        self.temp = tmp;
                        self.stage = ExtractStage::Extract;
                        Request::Run(req)
                    },
                }
            },
            (ExtractStage::Extract, Reply::Ran(o)) => {
                match self.qpdf.extract_pages(&o) {
                    Err(e) => self.fail(e),
                    Ok(()) => {
                        self.stage = ExtractStage::Persist;
                        Request::Persist { temp: self.temp.clone(), target: self.args.output.clone() }
                    },
                }
            },
            (ExtractStage::Persist, Reply::Io(r)) => {
                match r {
                    Err(e) => {
                        let output = self.args.output.clone();
                        self.fail(AppError::OutputFinalizeFailed { path: output, source: e })
                    },
                    Ok(()) => {
                        self.stage = ExtractStage::Finished;
                        Request::Finish(Ok(()))
                    },
                }
            },
            _ => {
                self.stage = ExtractStage::Finished;
                Request::Finish(Ok(()))
            },
        }
    }
}


// ------------------------------------------------------------------ laws

/// An extraction moves nothing into place but its output, and only from the
/// temporary file that qpdf has just filled without error; it never renames
/// or creates directories.
pub proof fn lemma_extract_writes_only_output(s: ExtractView, reply: Reply, t: ExtractView, req: RequestView)
    requires
        extract_next(s, reply, t, req),
    ensures
        req is Persist ==> req->Persist_1 == s.output && req->Persist_0 == s.temp && s.stage == ExtractStage::Extract
            && (reply matches Reply::Ran(o) && spec_qpdf_write("extract_pages"@, o) is Ok),
        !(req is Rename),
        !(req is CreateDirAll),
{
}

/// In strict mode the input is inspected right after it is found to be a
/// file, and the extraction goes on only when the inspection found nothing
/// the tool cannot keep; without strict mode nothing is inspected.
pub proof fn lemma_extract_strict_gate(s: ExtractView, reply: Reply, t: ExtractView, req: RequestView)
    requires
        extract_wf(s),
        extract_next(s, reply, t, req),
    ensures
        s.strict && s.stage == ExtractStage::CheckInput ==> t.stage == ExtractStage::StrictInfo || t.stage
            == ExtractStage::StrictInspect || t.stage == ExtractStage::Finished,
        s.stage == ExtractStage::StrictInspect && t.stage != ExtractStage::Finished ==> (reply matches Reply::Ran(o)
            && spec_strict_outcome(s.input, spec_inspect_strict(o)) is Ok),
        !s.strict ==> t.stage != ExtractStage::StrictInfo && t.stage != ExtractStage::StrictInspect,
{
}

/// An extraction never writes onto its input: the one file it moves into
/// place is its output, and the input has a canonical path that, compared as
/// a path with the output's canonical path (or with the output as given, when
/// it has none), was found to differ.
pub proof fn lemma_extract_spares_input(s: ExtractView, reply: Reply, t: ExtractView, req: RequestView)
    requires
        extract_wf(s),
        extract_next(s, reply, t, req),
        req is Persist,
    ensures
        req->Persist_1 == s.output,
        s.canonical[1] matches Ok(c) && same_path_fact(c, compared_path(s.output, s.canonical[0]), false),
{
    assert(s.stage == ExtractStage::Extract);
    lemma_outputs_differ(s.output, seq![s.input], s.canonical.skip(1), s.same);
    assert(s.canonical.skip(1)[0] == s.canonical[1]);
    assert(s.canonical.skip(1)[0] is Ok && !s.same[0]);
}

/// How far an extraction is from its end.
pub open spec fn extract_measure(s: ExtractView) -> (nat, nat) {
    match s.stage {
        ExtractStage::CheckInput => (10, 0),
        ExtractStage::StrictInfo => (9, 0),
        ExtractStage::StrictInspect => (8, 0),
        ExtractStage::Canonical => (7, 0),
        ExtractStage::CountPages => (6, 0),
        ExtractStage::ProbeParent => (5, 0),
        ExtractStage::ProbeOutput => (4, 0),
        ExtractStage::CreateTemp => (3, 0),
        ExtractStage::Extract => (2, 0),
        ExtractStage::Persist => (1, 0),
        ExtractStage::Finished => (0, 0),
    }
}

/// Every extraction ends: each step moves its measure down in a well-founded
/// order.
pub proof fn lemma_extract_ends(s: ExtractView, reply: Reply, t: ExtractView, req: RequestView)
    requires
        extract_next(s, reply, t, req),
    ensures
        lex_below(extract_measure(t), extract_measure(s)),
{
}

/// An extraction writes exactly the selected pages: the qpdf run that fills
/// its temporary file is `qpdf <input> --pages . <range> -- <temp>`, where
/// the range is the qpdf text of the page specification as written.
pub proof fn lemma_extract_runs_selected_pages(s: ExtractView, reply: Reply, t: ExtractView, req: RequestView)
    requires
        extract_wf(s),
        extract_next(s, reply, t, req),
        t.stage == ExtractStage::Extract,
    ensures
        spec_parse(s.pages) is Ok,
        req is Run,
        req->Run_0.executable == s.qpdf,
        req->Run_0.args == seq![s.input, "--pages"@, "."@, spec_qpdf_range(spec_parse(s.pages)->Ok_0), "--"@, t.temp],
{
}

/// An extraction takes any specification that selects at least one page,
/// `odd` and `even` included, and refuses one that selects none.
pub proof fn lemma_extract_rules(items: Seq<PageExpr>, total: u32)
    ensures
        spec_resolve(items, total) matches Ok(ps) ==> (ps.len() > 0 ==> spec_validate_rules(items, total, extract_rules())
            == Ok::<Seq<u32>, PageFailure>(ps)),
        spec_resolve(items, total) matches Ok(ps) ==> (ps.len() == 0 ==> spec_validate_rules(items, total, extract_rules())
            == Err::<Seq<u32>, PageFailure>(PageFailure::Empty)),
{
    crate::page_spec::lemma_rules_outcome(items, total, extract_rules());
}

} // verus!
