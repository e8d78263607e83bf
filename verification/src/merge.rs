use vstd::prelude::*;

use crate::cli::{CommonOptions, MergeArgs};
use crate::command_support::texts;
use crate::error::{AppError, ErrorView};
use crate::io_support::{
    canon_views, compared_path, lemma_outputs_differ, ensure_output_differs, output_parent_dir, same_paths, spec_outputs_differ, spec_parent_dir,
    spec_validate_input_pdf, spec_validate_single_output, validate_input_pdf, validate_single_output,
};
use crate::path_syntax::{parent_fact, same_path_fact};
use crate::protocol::{lex_below, PathKind, Reply, Request, RequestView};
use crate::qpdf_runner::{
    inspect_strict_view, merge_pdfs_view, show_npages_view, spec_inspect_strict, spec_qpdf_write,
    spec_show_npages, QpdfRunner,
};
use crate::strict::{enforce_on_input, spec_strict_outcome, strict_info, strict_info_message};

verus! {

/// Where a merge stands: which answer it waits for.
#[derive(Debug, Clone, Copy, PartialEq, Eq, Structural)]
pub enum MergeStage {
    CheckInput,
    Canonical,
    CountPages,
    StrictInfo,
    StrictInspect,
    ProbeParent,
    ProbeOutput,
    CreateTemp,
    Merge,
    Persist,
    Finished,
}

/// A running `merge`: it asks for outside work one request at a time and
/// decides from each answer what to ask next.
pub struct MergeRun {
    args: MergeArgs,
    strict: bool,
    verbose: bool,
    qpdf: QpdfRunner,
    parent: Option<String>,
    stage: MergeStage,
    index: usize,
    parent_kind: PathKind,
    temp: String,
    canonical: Ghost<Seq<Result<Seq<char>, Seq<char>>>>,
    same: Ghost<Seq<bool>>,
}

/// A merge's state with its texts as character sequences. `canonical` holds
/// the canonical forms of the output and the inputs once they are compared,
/// and `same` what comparing each input's with the output's gave.
pub struct MergeView {
    pub inputs: Seq<Seq<char>>,
    pub output: Seq<char>,
    pub overwrite: bool,
    pub strict: bool,
    pub verbose: bool,
    pub qpdf: Seq<char>,
    pub parent: Option<Seq<char>>,
    pub stage: MergeStage,
    pub index: nat,
    pub parent_kind: PathKind,
    pub temp: Seq<char>,
    pub canonical: Seq<Result<Seq<char>, Seq<char>>>,
    pub same: Seq<bool>,
}

impl View for MergeRun {
    type V = MergeView;

    closed spec fn view(&self) -> MergeView {
        MergeView {
            inputs: texts(self.args.inputs@),
            output: self.args.output@,
            overwrite: self.args.overwrite,
            strict: self.strict,
            verbose: self.verbose,
            qpdf: self.qpdf.executable_view(),
            parent: match self.parent {
                Some(p) => Some(p@),
                None => None,
            },
            stage: self.stage,
            index: self.index as nat,
            parent_kind: self.parent_kind,
            temp: self.temp@,
            canonical: self.canonical@,
            same: self.same@,
        }
    }
}

/// The index names an input while inputs are gone through, inspections
/// happen only in strict mode, the output differs from every input by the
/// canonical paths compared, and the output's directory is known once the
/// output is being prepared.
pub open spec fn merge_wf(s: MergeView) -> bool {
    &&& s.inputs.len() >= 2 || s.stage == MergeStage::Finished
    &&& !s.strict ==> s.stage != MergeStage::StrictInfo && s.stage != MergeStage::StrictInspect
    &&& merge_compared(s) ==> s.canonical.len() == s.inputs.len() + 1 && same_paths(
        compared_path(s.output, s.canonical[0]),
        s.canonical.skip(1),
        s.same,
    ) && spec_outputs_differ(s.output, s.inputs, s.canonical.skip(1), s.same) is Ok
    &&& match s.stage {
        MergeStage::CheckInput | MergeStage::CountPages | MergeStage::StrictInfo | MergeStage::StrictInspect => s.index
            < s.inputs.len(),
        MergeStage::ProbeParent | MergeStage::ProbeOutput | MergeStage::CreateTemp | MergeStage::Merge
        | MergeStage::Persist => s.parent is Some,
        _ => true,
    }
}

/// The run is past the comparison of the output with the inputs.
pub open spec fn merge_compared(s: MergeView) -> bool {
    !(s.stage is CheckInput || s.stage is Canonical || s.stage is Finished)
}

/// The answer that a stage waits for.
pub open spec fn merge_accepts(s: MergeView, reply: Reply) -> bool {
    match s.stage {
        MergeStage::CheckInput | MergeStage::ProbeParent | MergeStage::ProbeOutput => reply is Kind,
        MergeStage::StrictInfo => reply is Ack,
        MergeStage::StrictInspect | MergeStage::CountPages | MergeStage::Merge => reply is Ran,
        MergeStage::Canonical => reply matches Reply::Canonical(cs) && cs@.len() == s.inputs.len() + 1,
        MergeStage::CreateTemp => reply is Created,
        MergeStage::Persist => reply is Io,
        MergeStage::Finished => false,
    }
}

/// `t` is `s` at `stage` with the input index `index`, nothing else changed.
pub open spec fn merge_at(s: MergeView, t: MergeView, stage: MergeStage, index: nat) -> bool {
    t == MergeView { stage, index, ..s }
}

/// `t` and `req` end the merge with the error `v`.
pub open spec fn merge_fails(s: MergeView, t: MergeView, req: RequestView, v: ErrorView) -> bool {
    merge_at(s, t, MergeStage::Finished, s.index) && req == RequestView::Finish(Err(v))
}

/// After input `i` is counted (and inspected in strict mode): the next input
/// is counted, or, after the last one, the output's directory is checked.
pub open spec fn merge_after_input(s: MergeView, t: MergeView, req: RequestView, i: nat) -> bool {
    if i + 1 < s.inputs.len() {
        merge_at(s, t, MergeStage::CountPages, i + 1) && req == RequestView::Run(show_npages_view(s.qpdf, s.inputs[i as int + 1]))
    } else {
        match s.parent {
            None => merge_fails(s, t, req, ErrorView::OutputDirectoryNotFound(s.output)),
            Some(p) => merge_at(s, t, MergeStage::ProbeParent, i) && req == RequestView::Inspect(p),
        }
    }
}

/// The first request of a merge: at least two inputs are needed.
pub open spec fn merge_start(inputs: Seq<Seq<char>>, t: MergeView, req: RequestView) -> bool {
    if inputs.len() < 2 {
        t.stage == MergeStage::Finished && req == RequestView::Finish(Err(ErrorView::MergeRequiresAtLeastTwoInputs))
    } else {
        t.stage == MergeStage::CheckInput && t.index == 0 && req == RequestView::Inspect(inputs[0])
    }
}

/// One step of `merge`: from the state `s` and the answer `reply` to the
/// state `t` and the next request `req`. The order is: every input must be a
/// file; the output must differ from every input; each input in turn is
/// counted by qpdf (which rejects what is not a PDF) and, in strict mode,
/// inspected; the output's directory and path are checked; a temporary file
/// is made next to the output, qpdf writes all inputs into it, and it is moved
/// onto the output. The first failure ends the run.
pub open spec fn merge_next(s: MergeView, reply: Reply, t: MergeView, req: RequestView) -> bool {
    match (s.stage, reply) {
        (MergeStage::CheckInput, Reply::Kind(k)) => match spec_validate_input_pdf(s.inputs[s.index as int], k) {
            Err(v) => merge_fails(s, t, req, v),
            Ok(()) => if s.index + 1 < s.inputs.len() {
                merge_at(s, t, MergeStage::CheckInput, s.index + 1) && req == RequestView::Inspect(s.inputs[s.index as int + 1])
            } else {
                merge_at(s, t, MergeStage::Canonical, s.index) && req == RequestView::Canonicalize(seq![s.output] + s.inputs)
            },
        },
        (MergeStage::Canonical, Reply::Canonical(cs)) => exists|same: Seq<bool>|
            same_paths(compared_path(s.output, canon_views(cs@)[0]), canon_views(cs@).skip(1), same)
                && match #[trigger] spec_outputs_differ(s.output, s.inputs, canon_views(cs@).skip(1), same) {
                Err(v) => merge_fails(s, t, req, v),
                Ok(()) => t == MergeView {
                    stage: MergeStage::CountPages,
                    index: 0,
                    canonical: canon_views(cs@),
                    same,
                    ..s
                } && req == RequestView::Run(show_npages_view(s.qpdf, s.inputs[0])),
            },
        (MergeStage::CountPages, Reply::Ran(o)) => match spec_show_npages(s.inputs[s.index as int], o) {
            Err(v) => merge_fails(s, t, req, v),
            Ok(_) => if s.strict && s.verbose {
                merge_at(s, t, MergeStage::StrictInfo, s.index) && req == RequestView::Info(
                    strict_info_message(s.inputs[s.index as int]),
                )
            } else if s.strict {
                merge_at(s, t, MergeStage::StrictInspect, s.index) && req == RequestView::Run(
                    inspect_strict_view(s.qpdf, s.inputs[s.index as int]),
                )
            } else {
                merge_after_input(s, t, req, s.index)
            },
        },
        (MergeStage::StrictInfo, Reply::Ack) => merge_at(s, t, MergeStage::StrictInspect, s.index) && req == RequestView::Run(
            inspect_strict_view(s.qpdf, s.inputs[s.index as int]),
        ),
        (MergeStage::StrictInspect, Reply::Ran(o)) => match spec_strict_outcome(
            s.inputs[s.index as int],
            spec_inspect_strict(o),
        ) {
            Err(v) => merge_fails(s, t, req, v),
            Ok(()) => merge_after_input(s, t, req, s.index),
        },
        (MergeStage::ProbeParent, Reply::Kind(k)) => t == MergeView { stage: MergeStage::ProbeOutput, parent_kind: k, ..s }
            && req == RequestView::Inspect(s.output),
        (MergeStage::ProbeOutput, Reply::Kind(k)) => match spec_validate_single_output(
            s.output,
            s.parent->Some_0,
            s.parent_kind,
            k,
            s.overwrite,
        ) {
            Err(v) => merge_fails(s, t, req, v),
            Ok(()) => merge_at(s, t, MergeStage::CreateTemp, s.index) && req == RequestView::CreateTempFile(s.parent->Some_0),
        },
        (MergeStage::CreateTemp, Reply::Created(r)) => match r {
            Err(e) => merge_fails(s, t, req, ErrorView::TempOutputCreateFailed(s.output, e@)),
            Ok(tmp) => t == MergeView { stage: MergeStage::Merge, temp: tmp@, ..s } && req == RequestView::Run(
                merge_pdfs_view(s.qpdf, s.inputs, tmp@),
            ),
        },
        (MergeStage::Merge, Reply::Ran(o)) => match spec_qpdf_write("merge_pdfs"@, o) {
            Err(v) => merge_fails(s, t, req, v),
            Ok(()) => merge_at(s, t, MergeStage::Persist, s.index) && req == RequestView::Persist(s.temp, s.output),
        },
        (MergeStage::Persist, Reply::Io(r)) => match r {
            Err(e) => merge_fails(s, t, req, ErrorView::OutputFinalizeFailed(s.output, e@)),
            Ok(()) => merge_at(s, t, MergeStage::Finished, s.index) && req == RequestView::Finish(Ok(())),
        },
        _ => false,
    }
}

/// Starts `merge`: with fewer than two inputs it is over at once; else the
/// first request checks the first input.
pub fn run(args: MergeArgs, common: &CommonOptions, qpdf: &QpdfRunner) -> (r: (MergeRun, Request))
    ensures
        r.0@.inputs == texts(args.inputs@),
        r.0@.output == args.output@,
        r.0@.overwrite == args.overwrite,
        r.0@.strict == common.strict,
        r.0@.verbose == (common.verbose && !common.quiet),
        r.0@.qpdf == qpdf.executable_view(),
        exists|parent: Option<Seq<char>>|
            parent_fact(args.output@, parent) && match #[trigger] spec_parent_dir(args.output@, parent) {
                Ok(d) => r.0@.parent == Some(d),
                Err(_) => r.0@.parent is None,
            },
        merge_start(texts(args.inputs@), r.0@, r.1@),
        merge_wf(r.0@),
{
    let parent = match output_parent_dir(args.output.as_str()) {
        Ok(d) => Some(d),
        Err(_) => None,
    };
    let few = args.inputs.len() < 2;
    let first = if few {
        Request::Finish(Err(AppError::MergeRequiresAtLeastTwoInputs))
    } else {
        Request::Inspect(args.inputs[0].clone())
    };
    let run = MergeRun {
        args,
        strict: common.strict,
        verbose: common.verbose && !common.quiet,
        qpdf: QpdfRunner::new(qpdf.executable().to_owned()),
        parent,
        stage: if few {
            MergeStage::Finished
        } else {
            MergeStage::CheckInput
        },
        index: 0,
        parent_kind: PathKind::Missing,
        temp: String::new(),
        canonical: Ghost(Seq::empty()),
        same: Ghost(Seq::empty()),
    };
    (run, first)
}

impl MergeRun {
    /// Whether `reply` is the kind of answer the run waits for.
    pub fn accepts(&self, reply: &Reply) -> (b: bool)
        ensures
            b == merge_accepts(self@, *reply),
    {
        match self.stage {
            MergeStage::CheckInput | MergeStage::ProbeParent | MergeStage::ProbeOutput => matches!(reply, Reply::Kind(_)),
            MergeStage::StrictInfo => matches!(reply, Reply::Ack),
            MergeStage::StrictInspect | MergeStage::CountPages | MergeStage::Merge => matches!(reply, Reply::Ran(_)),
            MergeStage::Canonical => match reply {
                Reply::Canonical(cs) => cs.len() > 0 && cs.len() - 1 == self.args.inputs.len(),
                _ => false,
            },
            MergeStage::CreateTemp => matches!(reply, Reply::Created(_)),
            MergeStage::Persist => matches!(reply, Reply::Io(_)),
            MergeStage::Finished => false,
        }
    }

    fn fail(&mut self, e: AppError) -> (r: Request)
        ensures
            merge_fails(old(self)@, final(self)@, r@, e@),
    {
        self.stage = MergeStage::Finished;
        Request::Finish(Err(e))
    }

    fn after_input(&mut self) -> (r: Request)
        requires
            merge_wf(old(self)@),
            merge_compared(old(self)@),
            old(self)@.inputs.len() >= 2,
            old(self)@.index < old(self)@.inputs.len(),
        ensures
            merge_wf(final(self)@),
            merge_after_input(old(self)@, final(self)@, r@, old(self)@.index),
    {
        if self.index < self.args.inputs.len() - 1 {
            self.index = self.index + 1;
            self.stage = MergeStage::CountPages;
            assert(merge_wf(self@));
            Request::Run(self.qpdf.show_npages_command(self.args.inputs[self.index].as_str()))
        } else {
            match &self.parent {
                None => {
                    let output = self.args.output.clone();
                    self.fail(AppError::OutputDirectoryNotFound { path: output })
                },
                Some(p) => {
                    let p = p.clone();
                    self.stage = MergeStage::ProbeParent;
                    assert(merge_wf(self@));
                    Request::Inspect(p)
                },
            }
        }
    }

    /// Takes the answer to the last request and returns the next one.
    pub fn resume(&mut self, reply: Reply) -> (r: Request)
        requires
            merge_wf(old(self)@),
            merge_accepts(old(self)@, reply),
        ensures
            merge_wf(final(self)@),
            merge_next(old(self)@, reply, final(self)@, r@),
    {
        let ghost ins = texts(self.args.inputs@);
        match (self.stage, reply) {
            (MergeStage::CheckInput, Reply::Kind(k)) => {
                match validate_input_pdf(self.args.inputs[self.index].as_str(), k) {
                    Err(e) => self.fail(e),
                    Ok(()) => {
                        if self.index < self.args.inputs.len() - 1 {
                            self.index = self.index + 1;
                            Request::Inspect(self.args.inputs[self.index].clone())
                        } else {
                            self.stage = MergeStage::Canonical;
                            let mut paths = vec![self.args.output.clone()];
                            let mut j: usize = 0;
                            while j < self.args.inputs.len()
                                invariant
                                    j <= self.args.inputs.len(),
                                    ins == texts(self.args.inputs@),
                                    texts(paths@) == seq![self.args.output@] + ins.take(j as int),
                                decreases self.args.inputs.len() - j,
                            {
                                let ghost before = texts(paths@);
                                paths.push(self.args.inputs[j].clone());
                                j += 1;
                                assert(texts(paths@) =~= before.push(ins[j - 1]));
                                assert(ins.take(j as int) =~= ins.take(j - 1).push(ins[j - 1]));
                            }
                            assert(ins.take(self.args.inputs.len() as int) =~= ins);
                            Request::Canonicalize(paths)
                        }
                    },
                }
            },
            (MergeStage::Canonical, Reply::Canonical(cs)) => {
                let checked = ensure_output_differs(self.args.output.as_str(), &self.args.inputs, &cs);
                let ghost same = choose|same: Seq<bool>|
                    same_paths(compared_path(self.args.output@, canon_views(cs@)[0]), canon_views(cs@).skip(1), same)
                        && match (checked, #[trigger] spec_outputs_differ(
                        self.args.output@,
                        texts(self.args.inputs@),
                        canon_views(cs@).skip(1),
                        same,
                    )) {
                        (Ok(()), Ok(())) => true,
                        (Err(e), Err(v)) => e@ == v,
                        _ => false,
                    };
                match checked {
                    Err(e) => self.fail(e),
                    Ok(()) => {
                        self.canonical = Ghost(canon_views(cs@));
                        self.same = Ghost(same);
                        self.index = 0;
                        self.stage = MergeStage::CountPages;
                        Request::Run(self.qpdf.show_npages_command(self.args.inputs[0].as_str()))
                    },
                }
            },
            (MergeStage::CountPages, Reply::Ran(o)) => {
                match self.qpdf.show_npages(self.args.inputs[self.index].as_str(), &o) {
                    Err(e) => self.fail(e),
                    Ok(_) => {
                        if self.strict && self.verbose {
                            self.stage = MergeStage::StrictInfo;
                            Request::Info(strict_info(self.args.inputs[self.index].as_str()))
                        } else if self.strict {
                            self.stage = MergeStage::StrictInspect;
                            Request::Run(self.qpdf.inspect_strict_command(self.args.inputs[self.index].as_str()))
                        } else {
                            self.after_input()
                        }
                    },
                }
            },
            (MergeStage::StrictInfo, Reply::Ack) => {
                self.stage = MergeStage::StrictInspect;
                Request::Run(self.qpdf.inspect_strict_command(self.args.inputs[self.index].as_str()))
            },
            (MergeStage::StrictInspect, Reply::Ran(o)) => {
                match enforce_on_input(self.args.inputs[self.index].as_str(), &self.qpdf, &o) {
                    Err(e) => self.fail(e),
                    Ok(()) => self.after_input(),
                }
            },
            (MergeStage::ProbeParent, Reply::Kind(k)) => {
                self.parent_kind = k;
                self.stage = MergeStage::ProbeOutput;
                Request::Inspect(self.args.output.clone())
            },
            (MergeStage::ProbeOutput, Reply::Kind(k)) => {
                let parent = match &self.parent {
                    Some(p) => p.clone(),
                    None => String::new(),
                };
                match validate_single_output(
                    self.args.output.as_str(),
                    parent.as_str(),
                    self.parent_kind,
                    k,
                    self.args.overwrite,
                ) {
                    Err(e) => self.fail(e),
                    Ok(()) => {
                        self.stage = MergeStage::CreateTemp;
                        Request::CreateTempFile(parent)
                    },
                }
            },
            (MergeStage::CreateTemp, Reply::Created(r)) => {
                match r {
                    Err(e) => {
                        let output = self.args.output.clone();
                        self.fail(AppError::TempOutputCreateFailed { path: output, source: e })
                    },
                    Ok(tmp) => {
                        let req = self.qpdf.merge_pdfs_command(&self.args.inputs, tmp.as_str());
                        self.temp = tmp;
                        self.stage = MergeStage::Merge;
                        Request::Run(req)
                    },
                }
            },
            (MergeStage::Merge, Reply::Ran(o)) => {
                match self.qpdf.merge_pdfs(&o) {
                    Err(e) => self.fail(e),
                    Ok(()) => {
                        self.stage = MergeStage::Persist;
                        Request::Persist { temp: self.temp.clone(), target: self.args.output.clone() }
                    },
                }
            },
            (MergeStage::Persist, Reply::Io(r)) => {
                match r {
                    Err(e) => {
                        let output = self.args.output.clone();
                        self.fail(AppError::OutputFinalizeFailed { path: output, source: e })
                    },
                    Ok(()) => {
                        self.stage = MergeStage::Finished;
                        Request::Finish(Ok(()))
                    },
                }
            },
            _ => {
                self.stage = MergeStage::Finished;
                Request::Finish(Ok(()))
            },
        }
    }
}


// ------------------------------------------------------------------ laws

/// A merge moves nothing into place but its output, and only from the
/// temporary file that qpdf has just filled without error; it never renames
/// or creates directories.
pub proof fn lemma_merge_writes_only_output(s: MergeView, reply: Reply, t: MergeView, req: RequestView)
    requires
        merge_next(s, reply, t, req),
    ensures
        req is Persist ==> req->Persist_1 == s.output && req->Persist_0 == s.temp && s.stage == MergeStage::Merge
            && (reply matches Reply::Ran(o) && spec_qpdf_write("merge_pdfs"@, o) is Ok),
        !(req is Rename),
        !(req is CreateDirAll),
{
}

/// In strict mode each input is inspected right after it is counted, and the
/// merge goes on past an inspection only when it found nothing the tool
/// cannot keep; without strict mode nothing is inspected.
pub proof fn lemma_merge_strict_gate(s: MergeView, reply: Reply, t: MergeView, req: RequestView)
    requires
        merge_wf(s),
        merge_next(s, reply, t, req),
    ensures
        s.strict && s.stage == MergeStage::CountPages ==> t.stage == MergeStage::StrictInfo || t.stage
            == MergeStage::StrictInspect || t.stage == MergeStage::Finished,
        s.stage == MergeStage::StrictInspect && t.stage != MergeStage::Finished ==> (reply matches Reply::Ran(o)
            && spec_strict_outcome(s.inputs[s.index as int], spec_inspect_strict(o)) is Ok),
        !s.strict ==> t.stage != MergeStage::StrictInfo && t.stage != MergeStage::StrictInspect,
{
}

/// A merge never writes onto one of its inputs: the one file it moves into
/// place is its output, and every input has a canonical path that, compared
/// as a path with the output's canonical path (or with the output as given,
/// when it has none), was found to differ.
pub proof fn lemma_merge_spares_inputs(s: MergeView, reply: Reply, t: MergeView, req: RequestView)
    requires
        merge_wf(s),
        merge_next(s, reply, t, req),
        req is Persist,
    ensures
        req->Persist_1 == s.output,
        forall|i: int|
            0 <= i < s.inputs.len() ==> (#[trigger] s.canonical[i + 1] matches Ok(c) && same_path_fact(
                c,
                compared_path(s.output, s.canonical[0]),
                false,
            )),
{
    assert(s.stage == MergeStage::Merge);
    lemma_outputs_differ(s.output, s.inputs, s.canonical.skip(1), s.same);
    assert forall|i: int| 0 <= i < s.inputs.len() implies (#[trigger] s.canonical[i + 1] matches Ok(c) && same_path_fact(
        c,
        compared_path(s.output, s.canonical[0]),
        false,
    )) by {
        assert(s.canonical.skip(1)[i] == s.canonical[i + 1]);
        assert(s.canonical.skip(1)[i] is Ok && !s.same[i]);
    }
}

/// How far a merge is from its end: the phase, then the steps left in it.
pub open spec fn merge_measure(s: MergeView) -> (nat, nat) {
    let left = (s.inputs.len() - s.index) as nat;
    match s.stage {
        MergeStage::CheckInput => (4, left),
        MergeStage::Canonical => (3, 0),
        MergeStage::CountPages => (2, 3 * left),
        MergeStage::StrictInfo => (2, (3 * left - 1) as nat),
        MergeStage::StrictInspect => (2, (3 * left - 2) as nat),
        MergeStage::ProbeParent => (1, 5),
        MergeStage::ProbeOutput => (1, 4),
        MergeStage::CreateTemp => (1, 3),
        MergeStage::Merge => (1, 2),
        MergeStage::Persist => (1, 1),
        MergeStage::Finished => (0, 0),
    }
}

/// Every merge ends: each step moves its measure down in a well-founded order.
pub proof fn lemma_merge_ends(s: MergeView, reply: Reply, t: MergeView, req: RequestView)
    requires
        merge_wf(s),
        merge_next(s, reply, t, req),
    ensures
        lex_below(merge_measure(t), merge_measure(s)),
{
}

/// The inputs are merged in the order given: the one qpdf run that writes
/// the output is `qpdf --empty --pages`, then every input exactly in the
/// order of the command line, then `--` and the temporary file that is later
/// moved onto the output.
pub proof fn lemma_merge_input_order(s: MergeView, reply: Reply, t: MergeView, req: RequestView)
    requires
        merge_next(s, reply, t, req),
        t.stage == MergeStage::Merge,
    ensures
        req is Run,
        req->Run_0.executable == s.qpdf,
        !req->Run_0.stdout_to_temp_file,
        req->Run_0.args.len() == s.inputs.len() + 4,
        req->Run_0.args[0] == "--empty"@,
        req->Run_0.args[1] == "--pages"@,
        forall|i: int| 0 <= i < s.inputs.len() ==> req->Run_0.args[i + 2] == #[trigger] s.inputs[i],
        req->Run_0.args[s.inputs.len() as int + 2] == "--"@,
        req->Run_0.args[s.inputs.len() as int + 3] == t.temp,
{
    let args = req->Run_0.args;
    assert forall|i: int| 0 <= i < s.inputs.len() implies args[i + 2] == #[trigger] s.inputs[i] by {}
}

} // verus!
