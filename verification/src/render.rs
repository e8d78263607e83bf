use vstd::prelude::*;

use crate::cli::{CommonOptions, RenderArgs};
use crate::command_support::{opt_text, spec_stderr_summary, texts};
use crate::error::{AppError, ErrorView};
use crate::io_support::{
    apply_duplicate_suffixes, dedup_names, distinct_upto, ensure_output_directory, lemma_dedup_names_extend_bases, input_stem, join_path, lemma_dedup_names,
    output_parent_dir, path_parent, spec_output_directory, spec_parent_dir, spec_stem_or_default,
    spec_validate_input_pdf, spec_validate_single_output, validate_input_pdf, validate_single_output,
};
use crate::page_spec::{
    failure_view, reports, spec_parse, spec_resolve, spec_validate_rules, PageFailure, PageSpec,
    PageSpecRules, lemma_rules_accept_resolution,
};
use crate::path_syntax::{
    all_joined, inside_and_distinct, join_fact, verbatim_like, lemma_all_joined, lemma_stem_prefixed_plain,
    extension_fact, parent_fact, plain_name, stem_fact,
};
use crate::pdftoppm_runner::{
    check_generated_png, check_png_kind, find_generated_png, misplaced_png, missing_png, parent_compared, render_operation,
    render_page_view, spec_generated_png, spec_png_kind, spec_render_outcome, spec_single_png,
    spec_work_base, work_base, PdftoppmRunner,
};
use crate::protocol::{lex_below, PathKind, ProcessOutcome, Reply, Request, RequestView};
use crate::qpdf_runner::{show_npages_view, spec_show_npages, QpdfRunner};
use crate::text::{append_chars, chars_eq, chars_to_string, decimal, str_chars, u32_to_decimal, views};

verus! {

/// One image of a render: where it goes, its file name, and the page it shows.
#[derive(Debug, Clone)]
pub struct RenderPlanEntry {
    pub output_path: String,
    pub file_name: String,
    pub page: u32,
}

/// The rules a render's page specification is held to: `odd`/`even` allowed,
/// at least one page.
pub open spec fn render_rules() -> PageSpecRules {
    PageSpecRules { allow_odd_even: true, require_single_page: false, allow_empty_result: false }
}

/// The selected pages of a render, or why the specification is refused.
pub open spec fn spec_render_pages(pages: Seq<char>, total: u32) -> Result<Seq<u32>, PageFailure> {
    match spec_parse(pages) {
        Err(m) => Err(PageFailure::Invalid(m)),
        Ok(items) => spec_validate_rules(items, total, render_rules()),
    }
}

/// The render plan: one image per selected page, in order, named
/// `stem-page.png` and made unique with `-2`, `-3`, ... suffixes.
pub open spec fn spec_render_plan(stem: Seq<char>, pages: Seq<char>, total: u32) -> Result<
    Seq<(Seq<char>, u32)>,
    PageFailure,
> {
    match spec_render_pages(pages, total) {
        Err(f) => Err(f),
        Ok(ps) => {
            let names = dedup_names(ps.map_values(|p: u32| stem.push('-') + decimal(p as nat)), "png"@);
            Ok(Seq::new(ps.len(), |i: int| (names[i], ps[i])))
        },
    }
}

/// `r` is the plan `spec_render_plan(stem, pages, total)` (or the error that
/// reports its refusal).
pub open spec fn is_render_plan(r: Result<Vec<RenderPlanEntry>, AppError>, stem: Seq<char>, pages: Seq<char>, total: u32) -> bool {
    match (r, spec_render_plan(stem, pages, total)) {
        (Ok(v), Ok(p)) => v@.len() == p.len() && forall|i: int|
            0 <= i < p.len() ==> (#[trigger] v@[i]).file_name@ == p[i].0 && v@[i].page == p[i].1,
        (Err(e), Err(f)) => reports(e, f),
        _ => false,
    }
}

/// The render plan for an input whose images are named after `stem`:
/// exactly `spec_render_plan(stem, args.pages, total_pages)`, each image's path
/// being its name in `args.output_dir`.
pub fn plan_render(stem: &str, args: &RenderArgs, total_pages: u32) -> (r: Result<Vec<RenderPlanEntry>, AppError>)
    ensures
        is_render_plan(r, stem@, args.pages@, total_pages),
        r matches Ok(v) ==> all_joined(args.output_dir@, entry_names(v@), entry_paths(v@)),
        r matches Ok(v) ==> (!verbatim_like(args.output_dir@) && plain_name(stem@) ==> inside_and_distinct(
            args.output_dir@,
            entry_paths(v@),
        )),
{
    let spec = PageSpec::parse(args.pages.as_str())?;
    let rules = PageSpecRules { allow_odd_even: true, require_single_page: false, allow_empty_result: false };
    let pages = spec.validate_rules(total_pages, rules)?;
    let stem_chars = str_chars(stem);
    let ghost bases_spec = pages@.map_values(|p: u32| stem@.push('-') + decimal(p as nat));
    let mut bases: Vec<Vec<char>> = Vec::new();
    let mut i: usize = 0;
    while i < pages.len()
        invariant
            i <= pages.len(),
            bases_spec == pages@.map_values(|p: u32| stem@.push('-') + decimal(p as nat)),
            stem_chars@ == stem@,
            bases@.len() == i,
            views(bases@) == bases_spec.take(i as int),
        decreases pages.len() - i,
    {
        let mut base = stem_chars.clone();
        base.push('-');
        append_chars(&mut base, &u32_to_decimal(pages[i]));
        assert(base@ == bases_spec[i as int]);
        let ghost before = views(bases@);
        bases.push(base);
        assert(views(bases@) =~= before.push(base@));
        i += 1;
        assert(views(bases@) =~= bases_spec.take(i as int));
    }
    assert(bases_spec.take(pages.len() as int) =~= bases_spec);
    let names = apply_duplicate_suffixes(&bases, &str_chars("png"));
    let ghost names_spec = dedup_names(bases_spec, "png"@);
    proof {
        lemma_dedup_names(bases_spec, "png"@);
    }
    let mut plan: Vec<RenderPlanEntry> = Vec::new();
    let mut j: usize = 0;
    while j < names.len()
        invariant
            j <= names.len(),
            names@.len() == pages@.len(),
            views(names@) == names_spec,
            plan@.len() == j,
            forall|k: int|
                0 <= k < j ==> (#[trigger] plan@[k]).file_name@ == names_spec[k] && plan@[k].page == pages@[k]
                    && join_fact(args.output_dir@, plan@[k].file_name@, plan@[k].output_path@),
        decreases names.len() - j,
    {
        let file_name = chars_to_string(&names[j]);
        assert(file_name@ == names_spec[j as int]);
        let output_path = join_path(args.output_dir.as_str(), file_name.as_str());
        plan.push(RenderPlanEntry { output_path, file_name, page: pages[j] });
        j += 1;
    }
    proof {
        let dir = args.output_dir@;
        assert(entry_names(plan@) =~= names_spec);
        assert forall|i: int| 0 <= i < entry_names(plan@).len() implies join_fact(
            dir,
            #[trigger] entry_names(plan@)[i],
            entry_paths(plan@)[i],
        ) by {
            assert(join_fact(dir, plan@[i].file_name@, plan@[i].output_path@));
        }
        if !verbatim_like(dir) && plain_name(stem@) {
            lemma_dedup_names_extend_bases(bases_spec, "png"@);
            assert forall|i: int| 0 <= i < names_spec.len() implies plain_name(#[trigger] names_spec[i]) by {
                let base = bases_spec[i];
                assert(base == stem@.push('-') + decimal(pages@[i] as nat));
                assert(names_spec[i].subrange(0, base.len() as int) == base);
                assert(names_spec[i].subrange(0, stem@.len() + 1 as int) =~= base.subrange(0, stem@.len() + 1 as int));
                assert(base.subrange(0, stem@.len() + 1 as int) =~= stem@.push('-'));
                lemma_stem_prefixed_plain(stem@, names_spec[i]);
            }
            lemma_all_joined(dir, entry_names(plan@), entry_paths(plan@));
        }
    }
    Ok(plan)
}

/// The render plan of `args` for a document of `total_pages` pages: the plan
/// of `plan_render` for the input's stem (never empty).
pub fn build_render_plan(args: &RenderArgs, total_pages: u32) -> (r: Result<Vec<RenderPlanEntry>, AppError>)
    ensures
        exists|stem: Option<Seq<char>>|
            stem_fact(args.input@, stem) && is_render_plan(r, #[trigger] spec_stem_or_default(stem), args.pages@, total_pages)
                && (r matches Ok(v) ==> (!verbatim_like(args.output_dir@) && plain_name(spec_stem_or_default(stem))
                ==> inside_and_distinct(args.output_dir@, entry_paths(v@)))),
        r matches Ok(v) ==> all_joined(args.output_dir@, entry_names(v@), entry_paths(v@)),
{
    let stem = input_stem(args.input.as_str());
    plan_render(stem.as_str(), args, total_pages)
}

/// A render shows exactly the pages the specification resolves to, in order
/// and with repetitions, and gives every image its own file name.
pub proof fn lemma_render_plan(stem: Seq<char>, pages: Seq<char>, total: u32)
    ensures
        spec_render_plan(stem, pages, total) matches Ok(plan) ==> {
            &&& spec_parse(pages) matches Ok(items)
            &&& spec_resolve(items, total) matches Ok(ps)
            &&& plan.len() == ps.len()
            &&& forall|i: int| 0 <= i < plan.len() ==> #[trigger] plan[i].1 == ps[i]
            &&& forall|i: int, j: int| 0 <= i < j < plan.len() ==> #[trigger] plan[i].0 != #[trigger] plan[j].0
        },
{
    if let Ok(plan) = spec_render_plan(stem, pages, total) {
        let items = spec_parse(pages)->Ok_0;
        lemma_rules_accept_resolution(items, total, render_rules());
        let ps = spec_render_pages(pages, total)->Ok_0;
        let bases = ps.map_values(|p: u32| stem.push('-') + decimal(p as nat));
        lemma_dedup_names(bases, "png"@);
        let names = dedup_names(bases, "png"@);
        assert forall|i: int, j: int| 0 <= i < j < plan.len() implies #[trigger] plan[i].0 != #[trigger] plan[j].0 by {
            assert(plan[i].0 == names[i]);
            assert(plan[j].0 == names[j]);
        }
    }
}


// ------------------------------------------------------------------ the run

/// Where a render stands: which answer it waits for.
#[derive(Debug, Clone, Copy, PartialEq, Eq, Structural)]
pub enum RenderStage {
    CheckInput,
    CountPages,
    ProbeDir,
    MakeDir,
    ProbeParent,
    ProbeOutput,
    CreateTemp,
    MakeWorkDir,
    Render,
    List,
    ProbeImage,
    MoveImage,
    Persist,
    Finished,
}

/// A running `render`: it asks for outside work one request at a time and
/// decides from each answer what to ask next.
#[derive(Debug)]
pub struct RenderRun {
    args: RenderArgs,
    qpdf: QpdfRunner,
    pdftoppm: PdftoppmRunner,
    stem: String,
    stage: RenderStage,
    total: u32,
    plan: Vec<RenderPlanEntry>,
    index: usize,
    parent: String,
    parent_kind: PathKind,
    temps: Vec<String>,
    workdir: String,
    image: String,
}

/// A render's state with its texts as character sequences. `plan` holds each
/// image's file name and page, `outputs` each image's path, `temps` the
/// temporary files made so far, `workdir` the directory pdftoppm writes the
/// current page into and `image` the PNG file it wrote there.
pub struct RenderView {
    pub args: RenderArgs,
    pub qpdf: Seq<char>,
    pub pdftoppm: Seq<char>,
    pub stem: Seq<char>,
    pub stage: RenderStage,
    pub total: u32,
    pub plan: Seq<(Seq<char>, u32)>,
    pub outputs: Seq<Seq<char>>,
    pub index: nat,
    pub parent: Seq<char>,
    pub parent_kind: PathKind,
    pub temps: Seq<Seq<char>>,
    pub workdir: Seq<char>,
    pub image: Seq<char>,
}

/// The file names and pages of plan entries.
pub open spec fn entry_views(plan: Seq<RenderPlanEntry>) -> Seq<(Seq<char>, u32)> {
    Seq::new(plan.len(), |i: int| (plan[i].file_name@, plan[i].page))
}

/// The file names of plan entries.
pub open spec fn entry_names(plan: Seq<RenderPlanEntry>) -> Seq<Seq<char>> {
    Seq::new(plan.len(), |i: int| plan[i].file_name@)
}

/// The output paths of plan entries.
pub open spec fn entry_paths(plan: Seq<RenderPlanEntry>) -> Seq<Seq<char>> {
    Seq::new(plan.len(), |i: int| plan[i].output_path@)
}

impl View for RenderRun {
    type V = RenderView;

    closed spec fn view(&self) -> RenderView {
        RenderView {
            args: self.args,
            qpdf: self.qpdf.executable_view(),
            pdftoppm: self.pdftoppm.executable_view(),
            stem: self.stem@,
            stage: self.stage,
            total: self.total,
            plan: entry_views(self.plan@),
            outputs: entry_paths(self.plan@),
            index: self.index as nat,
            parent: self.parent@,
            parent_kind: self.parent_kind,
            temps: texts(self.temps@),
            workdir: self.workdir@,
            image: self.image@,
        }
    }
}

/// Every image has its path.
pub open spec fn render_base(s: RenderView) -> bool {
    s.plan.len() == s.outputs.len()
}

/// A render's state is consistent: while images are prepared or rendered the
/// index names one of them, with a temporary file for each one before it (or
/// for all of them once rendering has begun).
pub open spec fn render_wf(s: RenderView) -> bool {
    &&& render_base(s)
    &&& match s.stage {
        RenderStage::ProbeParent | RenderStage::ProbeOutput | RenderStage::CreateTemp => s.index < s.outputs.len()
            && s.temps.len() == s.index && distinct_upto(s.outputs, s.index as int + 1),
        RenderStage::MakeWorkDir | RenderStage::Render | RenderStage::List | RenderStage::ProbeImage
        | RenderStage::MoveImage | RenderStage::Persist => s.index < s.outputs.len() && s.temps.len() == s.outputs.len()
            && distinct_upto(s.outputs, s.outputs.len() as int),
        RenderStage::Finished => true,
        _ => s.temps.len() == 0,
    }
}

/// The answer that a stage waits for.
pub open spec fn render_accepts(stage: RenderStage, reply: Reply) -> bool {
    match stage {
        RenderStage::CheckInput | RenderStage::ProbeDir | RenderStage::ProbeParent | RenderStage::ProbeOutput
        | RenderStage::ProbeImage => reply is Kind,
        RenderStage::CountPages | RenderStage::Render => reply is Ran,
        RenderStage::MakeDir | RenderStage::MoveImage | RenderStage::Persist => reply is Io,
        RenderStage::CreateTemp | RenderStage::MakeWorkDir => reply is Created,
        RenderStage::List => reply is Listing,
        RenderStage::Finished => false,
    }
}

/// `t` is `s` at `stage`, nothing else changed.
pub open spec fn render_moved(s: RenderView, t: RenderView, stage: RenderStage) -> bool {
    t == RenderView { stage, ..s }
}

/// `t` and `req` end the render with the error `v`.
pub open spec fn render_fails(s: RenderView, t: RenderView, req: RequestView, v: ErrorView) -> bool {
    render_moved(s, t, RenderStage::Finished) && req == RequestView::Finish(Err(v))
}

/// After the pages are counted: the plan is made, and the output directory
/// is checked; a plan that cannot be made ends the run before anything is
/// written.
pub open spec fn render_plan_step(s: RenderView, t: RenderView, req: RequestView) -> bool {
    match spec_render_plan(s.stem, s.args.pages@, s.total) {
        Err(f) => render_fails(s, t, req, failure_view(f)),
        Ok(p) => t == RenderView { stage: RenderStage::ProbeDir, plan: p, outputs: t.outputs, ..s } && t.outputs.len()
            == p.len() && req == RequestView::Inspect(s.args.output_dir@) && all_joined(
            s.args.output_dir@,
            p.map_values(|e: (Seq<char>, u32)| e.0),
            t.outputs,
        ) && (!verbatim_like(s.args.output_dir@) && plain_name(s.stem) ==> inside_and_distinct(
            s.args.output_dir@,
            t.outputs,
        )),
    }
}

/// Image `i` is rendered next, in a temporary directory made next to its
/// temporary file; after the last image the run is over.
pub open spec fn render_entry_step(s: RenderView, t: RenderView, req: RequestView, i: nat) -> bool {
    if i < s.outputs.len() {
        t == RenderView { stage: RenderStage::MakeWorkDir, index: i, ..s } && exists|parent: Option<Seq<char>>|
            parent_fact(s.temps[i as int], parent) && req == RequestView::CreateTempDir(#[trigger] spec_work_base(parent))
    } else {
        t == RenderView { stage: RenderStage::Finished, index: i, ..s } && req == RequestView::Finish(Ok(()))
    }
}

/// Image `i` is prepared next: a path that an earlier image already has is
/// refused, then its directory is looked at. After the last image, rendering
/// begins.
pub open spec fn render_prepare_step(s: RenderView, t: RenderView, req: RequestView, i: nat) -> bool {
    if i < s.outputs.len() {
        if exists|j: int| 0 <= j < i && s.outputs[j] == s.outputs[i as int] {
            render_fails(s, t, req, ErrorView::OutputAlreadyExists(s.outputs[i as int]))
        } else {
            exists|parent: Option<Seq<char>>|
                parent_fact(s.outputs[i as int], parent) && match #[trigger] spec_parent_dir(s.outputs[i as int], parent) {
                    Err(v) => render_fails(s, t, req, v),
                    Ok(d) => t == RenderView { stage: RenderStage::ProbeParent, index: i, parent: d, ..s } && req
                        == RequestView::Inspect(d),
                }
        }
    } else {
        render_entry_step(s, t, req, 0)
    }
}

/// After pdftoppm's directory is listed: the one PNG file in it, which must
/// lie directly in it, is looked at.
pub open spec fn render_found_step(s: RenderView, t: RenderView, req: RequestView, found: Option<Seq<char>>) -> bool {
    exists|found_parent: Option<Seq<char>>, in_workdir: bool|
        (found matches Some(g) ==> parent_fact(g, found_parent)) && #[trigger] parent_compared(
            found_parent,
            s.workdir,
            in_workdir,
        ) && match spec_generated_png(found, in_workdir) {
            Err(v) => render_fails(s, t, req, v),
            Ok(g) => t == RenderView { stage: RenderStage::ProbeImage, image: g, ..s } && req == RequestView::Inspect(g),
        }
}

/// One step of `render`: from the state `s` and the answer `reply` to the
/// state `t` and the next request `req`. The order is: the input must be a
/// file; qpdf counts its pages (and rejects what is not a PDF); the plan is
/// made; the output directory is created when missing; every image is checked
/// and gets a temporary file next to it; then for each image in turn pdftoppm
/// renders its page into a fresh directory, the one PNG file it wrote is moved
/// onto the temporary file, and that is moved onto the image's path. The first
/// failure ends the run.
pub open spec fn render_next(s: RenderView, reply: Reply, t: RenderView, req: RequestView) -> bool {
    match (s.stage, reply) {
        (RenderStage::CheckInput, Reply::Kind(k)) => match spec_validate_input_pdf(s.args.input@, k) {
            Err(v) => render_fails(s, t, req, v),
            Ok(()) => render_moved(s, t, RenderStage::CountPages) && req == RequestView::Run(
                show_npages_view(s.qpdf, s.args.input@),
            ),
        },
        (RenderStage::CountPages, Reply::Ran(o)) => match spec_show_npages(s.args.input@, o) {
            Err(v) => render_fails(s, t, req, v),
            Ok(n) => render_plan_step(RenderView { total: n, ..s }, t, req),
        },
        (RenderStage::ProbeDir, Reply::Kind(k)) => match spec_output_directory(s.args.output_dir@, k) {
            Err(v) => render_fails(s, t, req, v),
            Ok(true) => render_moved(s, t, RenderStage::MakeDir) && req == RequestView::CreateDirAll(s.args.output_dir@),
            Ok(false) => render_prepare_step(s, t, req, 0),
        },
        (RenderStage::MakeDir, Reply::Io(r)) => match r {
            Err(e) => render_fails(s, t, req, ErrorView::OutputDirectoryCreateFailed(s.args.output_dir@, e@)),
            Ok(()) => render_prepare_step(s, t, req, 0),
        },
        (RenderStage::ProbeParent, Reply::Kind(k)) => t == RenderView { stage: RenderStage::ProbeOutput, parent_kind: k, ..s }
            && req == RequestView::Inspect(s.outputs[s.index as int]),
        (RenderStage::ProbeOutput, Reply::Kind(k)) => match spec_validate_single_output(
            s.outputs[s.index as int],
            s.parent,
            s.parent_kind,
            k,
            s.args.overwrite,
        ) {
            Err(v) => render_fails(s, t, req, v),
            Ok(()) => render_moved(s, t, RenderStage::CreateTemp) && req == RequestView::CreateTempFile(s.parent),
        },
        (RenderStage::CreateTemp, Reply::Created(r)) => match r {
            Err(e) => render_fails(s, t, req, ErrorView::TempOutputCreateFailed(s.outputs[s.index as int], e@)),
            Ok(tmp) => render_prepare_step(RenderView { temps: s.temps.push(tmp@), ..s }, t, req, s.index + 1),
        },
        (RenderStage::MakeWorkDir, Reply::Created(r)) => match r {
            Err(e) => render_fails(s, t, req, ErrorView::PdftoppmExecutionFailed(render_operation(), e@)),
            Ok(dir) => t == RenderView { stage: RenderStage::Render, workdir: dir@, ..s } && exists|prefix: Seq<char>|
                join_fact(dir@, "rendered"@, prefix) && req == RequestView::Run(
                    #[trigger] render_page_view(s.pdftoppm, s.args.input@, s.plan[s.index as int].1, s.args.dpi, prefix),
                ),
        },
        (RenderStage::Render, Reply::Ran(o)) => match spec_render_outcome(o) {
            Err(v) => render_fails(s, t, req, v),
            Ok(()) => render_moved(s, t, RenderStage::List) && req == RequestView::ListDir(s.workdir),
        },
        (RenderStage::List, Reply::Listing(l)) => match l {
            None => render_fails(s, t, req, missing_png()),
            Some(entries) => exists|exts: Seq<Option<Seq<char>>>|
                exts.len() == entries@.len() && (forall|k: int|
                    0 <= k < exts.len() ==> extension_fact(#[trigger] entries@[k]@, exts[k])) && render_found_step(
                    s,
                    t,
                    req,
                    #[trigger] spec_single_png(texts(entries@), exts),
                ),
        },
        (RenderStage::ProbeImage, Reply::Kind(k)) => match spec_png_kind(k) {
            Err(v) => render_fails(s, t, req, v),
            Ok(()) => render_moved(s, t, RenderStage::MoveImage) && req == RequestView::Rename(
                s.image,
                s.temps[s.index as int],
            ),
        },
        (RenderStage::MoveImage, Reply::Io(r)) => match r {
            Err(e) => render_fails(s, t, req, ErrorView::PdftoppmExecutionFailed(render_operation(), e@)),
            Ok(()) => render_moved(s, t, RenderStage::Persist) && req == RequestView::Persist(
                s.temps[s.index as int],
                s.outputs[s.index as int],
            ),
        },
        (RenderStage::Persist, Reply::Io(r)) => match r {
            Err(e) => render_fails(s, t, req, ErrorView::OutputFinalizeFailed(s.outputs[s.index as int], e@)),
            Ok(()) => render_entry_step(s, t, req, s.index + 1),
        },
        _ => false,
    }
}

/// Starts `render`: the first request checks the input. Its images are named
/// after the input's stem.
pub fn run(args: RenderArgs, common: &CommonOptions, qpdf: &QpdfRunner, pdftoppm: &PdftoppmRunner) -> (r: (
    RenderRun,
    Request,
))
    ensures
        r.0@.args == args,
        r.0@.qpdf == qpdf.executable_view(),
        r.0@.pdftoppm == pdftoppm.executable_view(),
        exists|stem: Option<Seq<char>>| stem_fact(args.input@, stem) && r.0@.stem == #[trigger] spec_stem_or_default(stem),
        r.0@.stage == RenderStage::CheckInput,
        r.0@.plan.len() == 0,
        r.0@.temps.len() == 0,
        render_wf(r.0@),
        r.1@ == RequestView::Inspect(args.input@),
{
    let stem = input_stem(args.input.as_str());
    let first = Request::Inspect(args.input.clone());
    let run = RenderRun {
        args,
        qpdf: QpdfRunner::new(qpdf.executable().to_owned()),
        pdftoppm: PdftoppmRunner::new(pdftoppm.executable().to_owned()),
        stem,
        stage: RenderStage::CheckInput,
        total: 0,
        plan: Vec::new(),
        index: 0,
        parent: String::new(),
        parent_kind: PathKind::Missing,
        temps: Vec::new(),
        workdir: String::new(),
        image: String::new(),
    };
    assert(run@.plan =~= Seq::<(Seq<char>, u32)>::empty());
    (run, first)
}

impl RenderRun {
    /// Whether `reply` is the kind of answer the run waits for.
    pub fn accepts(&self, reply: &Reply) -> (b: bool)
        ensures
            b == render_accepts(self@.stage, *reply),
    {
        match self.stage {
            RenderStage::CheckInput | RenderStage::ProbeDir | RenderStage::ProbeParent | RenderStage::ProbeOutput
            | RenderStage::ProbeImage => matches!(reply, Reply::Kind(_)),
            RenderStage::CountPages | RenderStage::Render => matches!(reply, Reply::Ran(_)),
            RenderStage::MakeDir | RenderStage::MoveImage | RenderStage::Persist => matches!(reply, Reply::Io(_)),
            RenderStage::CreateTemp | RenderStage::MakeWorkDir => matches!(reply, Reply::Created(_)),
            RenderStage::List => matches!(reply, Reply::Listing(_)),
            RenderStage::Finished => false,
        }
    }

    fn fail(&mut self, e: AppError) -> (r: Request)
        ensures
            render_fails(old(self)@, final(self)@, r@, e@),
    {
        self.stage = RenderStage::Finished;
        Request::Finish(Err(e))
    }

    fn make_plan(&mut self) -> (r: Request)
        requires
            render_wf(old(self)@),
            old(self)@.temps.len() == 0,
        ensures
            render_wf(final(self)@),
            render_plan_step(old(self)@, final(self)@, r@),
    {
        match plan_render(self.stem.as_str(), &self.args, self.total) {
            Err(e) => self.fail(e),
            Ok(plan) => {
                let ghost p = spec_render_plan(self@.stem, self@.args.pages@, self@.total)->Ok_0;
                assert(entry_views(plan@) =~= p);
                assert(entry_names(plan@) =~= p.map_values(|e: (Seq<char>, u32)| e.0));
                self.plan = plan;
                self.stage = RenderStage::ProbeDir;
                Request::Inspect(self.args.output_dir.clone())
            },
        }
    }

    fn has_earlier_duplicate(&self, i: usize) -> (b: bool)
        requires
            i < self@.outputs.len(),
        ensures
            b == exists|j: int| 0 <= j < i && self@.outputs[j] == self@.outputs[i as int],
    {
        let target = str_chars(self.plan[i].output_path.as_str());
        let mut j: usize = 0;
        while j < i
            invariant
                j <= i,
                i < self@.outputs.len(),
                target@ == self@.outputs[i as int],
                forall|k: int| 0 <= k < j ==> self@.outputs[k] != self@.outputs[i as int],
            decreases i - j,
        {
            if chars_eq(&str_chars(self.plan[j].output_path.as_str()), &target) {
                assert(self@.outputs[j as int] == self@.outputs[i as int]);
                return true;
            }
            j += 1;
        }
        false
    }

    fn render_entry(&mut self, i: usize) -> (r: Request)
        requires
            render_base(old(self)@),
            old(self)@.temps.len() == old(self)@.outputs.len(),
            distinct_upto(old(self)@.outputs, old(self)@.outputs.len() as int),
            i <= old(self)@.outputs.len(),
        ensures
            render_wf(final(self)@),
            render_entry_step(old(self)@, final(self)@, r@, i as nat),
    {
        self.index = i;
        if i < self.plan.len() {
            self.stage = RenderStage::MakeWorkDir;
            Request::CreateTempDir(work_base(self.temps[i].as_str()))
        } else {
            self.stage = RenderStage::Finished;
            Request::Finish(Ok(()))
        }
    }

    fn prepare_next(&mut self, i: usize) -> (r: Request)
        requires
            render_base(old(self)@),
            old(self)@.temps.len() == i,
            distinct_upto(old(self)@.outputs, i as int),
            i <= old(self)@.outputs.len(),
        ensures
            render_wf(final(self)@),
            render_prepare_step(old(self)@, final(self)@, r@, i as nat),
    {
        if i < self.plan.len() {
            if self.has_earlier_duplicate(i) {
                let path = self.plan[i].output_path.clone();
                self.fail(AppError::OutputAlreadyExists { path })
            } else {
                match output_parent_dir(self.plan[i].output_path.as_str()) {
                    Err(e) => self.fail(e),
                    Ok(d) => {
                        let req = Request::Inspect(d.clone());
                        self.parent = d;
                        self.index = i;
                        self.stage = RenderStage::ProbeParent;
                        req
                    },
                }
            }
        } else {
            self.render_entry(0)
        }
    }

    fn found_png(&mut self, found: Option<String>) -> (r: Request)
        requires
            render_wf(old(self)@),
            old(self)@.stage == RenderStage::List,
        ensures
            render_wf(final(self)@),
            render_found_step(old(self)@, final(self)@, r@, opt_text(found)),
    {
        let found_parent = match &found {
            Some(g) => path_parent(g.as_str()),
            None => None,
        };
        let ghost fp = opt_text(found_parent);
        let ghost fv = opt_text(found);
        let ghost s = self@;
        let checked = check_generated_png(found, found_parent, self.workdir.as_str());
        let ghost in_workdir = choose|in_workdir: bool|
            parent_compared(fp, s.workdir, in_workdir) && match (checked, #[trigger] spec_generated_png(fv, in_workdir)) {
                (Ok(g), Ok(h)) => g@ == h,
                (Err(e), Err(v)) => e@ == v,
                _ => false,
            };
        let r = match checked {
            Err(e) => self.fail(e),
            Ok(g) => {
                self.image = g.clone();
                self.stage = RenderStage::ProbeImage;
                Request::Inspect(g)
            },
        };
        assert(match spec_generated_png(fv, in_workdir) {
            Err(v) => render_fails(s, self@, r@, v),
            Ok(g) => self@ == RenderView { stage: RenderStage::ProbeImage, image: g, ..s } && r@ == RequestView::Inspect(g),
        });
        r
    }

    /// Takes the answer to the last request and returns the next one.
    pub fn resume(&mut self, reply: Reply) -> (r: Request)
        requires
            render_wf(old(self)@),
            render_accepts(old(self)@.stage, reply),
        ensures
            render_wf(final(self)@),
            render_next(old(self)@, reply, final(self)@, r@),
    {
        match (self.stage, reply) {
            (RenderStage::CheckInput, Reply::Kind(k)) => {
                match validate_input_pdf(self.args.input.as_str(), k) {
                    Err(e) => self.fail(e),
                    Ok(()) => {
                        self.stage = RenderStage::CountPages;
                        Request::Run(self.qpdf.show_npages_command(self.args.input.as_str()))
                    },
                }
            },
            (RenderStage::CountPages, Reply::Ran(o)) => {
                match self.qpdf.show_npages(self.args.input.as_str(), &o) {
                    Err(e) => self.fail(e),
                    Ok(n) => {
                        self.total = n;
                        self.make_plan()
                    },
                }
            },
            (RenderStage::ProbeDir, Reply::Kind(k)) => {
                match ensure_output_directory(self.args.output_dir.as_str(), k) {
                    Err(e) => self.fail(e),
                    Ok(true) => {
                        self.stage = RenderStage::MakeDir;
                        Request::CreateDirAll(self.args.output_dir.clone())
                    },
                    Ok(false) => self.prepare_next(0),
                }
            },
            (RenderStage::MakeDir, Reply::Io(r)) => {
                match r {
                    Err(e) => {
                        let path = self.args.output_dir.clone();
                        self.fail(AppError::OutputDirectoryCreateFailed { path, source: e })
                    },
                    Ok(()) => self.prepare_next(0),
                }
            },
            (RenderStage::ProbeParent, Reply::Kind(k)) => {
                self.parent_kind = k;
                self.stage = RenderStage::ProbeOutput;
                Request::Inspect(self.plan[self.index].output_path.clone())
            },
            (RenderStage::ProbeOutput, Reply::Kind(k)) => {
                match validate_single_output(
                    self.plan[self.index].output_path.as_str(),
                    self.parent.as_str(),
                    self.parent_kind,
                    k,
                    self.args.overwrite,
                ) {
                    Err(e) => self.fail(e),
                    Ok(()) => {
                        self.stage = RenderStage::CreateTemp;
                        Request::CreateTempFile(self.parent.clone())
                    },
                }
            },
            (RenderStage::CreateTemp, Reply::Created(r)) => {
                match r {
                    Err(e) => {
                        let path = self.plan[self.index].output_path.clone();
                        self.fail(AppError::TempOutputCreateFailed { path, source: e })
                    },
                    Ok(tmp) => {
                        assert(self.index < self.plan.len());
                        self.temps.push(tmp);
                        assert(self@.temps =~= old(self)@.temps.push(tmp@));
                        let next = self.index + 1;
                        self.prepare_next(next)
                    },
                }
            },
            (RenderStage::MakeWorkDir, Reply::Created(r)) => {
                match r {
                    Err(e) => self.fail(AppError::PdftoppmExecutionFailed { operation: "render_page_to_png".to_owned(), source: e }),
                    Ok(dir) => {
                        let prefix = join_path(dir.as_str(), "rendered");
                        let req = self.pdftoppm.render_page_command(
                            self.args.input.as_str(),
                            self.plan[self.index].page,
                            self.args.dpi,
                            prefix.as_str(),
                        );
                        self.workdir = dir;
                        self.stage = RenderStage::Render;
                        let r = Request::Run(req);
                        assert(r@ == RequestView::Run(
                            render_page_view(
                                self@.pdftoppm,
                                self@.args.input@,
                                self@.plan[self@.index as int].1,
                                self@.args.dpi,
                                prefix@,
                            ),
                        ));
                        r
                    },
                }
            },
            (RenderStage::Render, Reply::Ran(o)) => {
                match self.pdftoppm.render_outcome(&o) {
                    Err(e) => self.fail(e),
                    Ok(()) => {
                        self.stage = RenderStage::List;
                        Request::ListDir(self.workdir.clone())
                    },
                }
            },
            (RenderStage::List, Reply::Listing(l)) => {
                match l {
                    None => self.fail(
                        AppError::PdftoppmCommandFailed {
                            operation: "render_page_to_png".to_owned(),
                            detail: "pdftoppm did not produce the expected PNG output".to_owned(),
                        },
                    ),
                    Some(entries) => {
                        let found = find_generated_png(&entries);
                        let ghost exts = choose|exts: Seq<Option<Seq<char>>>|
                            exts.len() == entries@.len() && match found {
                                Some(p) => Some(p@) == #[trigger] spec_single_png(texts(entries@), exts),
                                None => spec_single_png(texts(entries@), exts) is None,
                            };
                        let r = self.found_png(found);
                        assert(exts.len() == entries@.len() && render_found_step(
                            old(self)@,
                            self@,
                            r@,
                            spec_single_png(texts(entries@), exts),
                        ));
                        r
                    },
                }
            },
            (RenderStage::ProbeImage, Reply::Kind(k)) => {
                match check_png_kind(k) {
                    Err(e) => self.fail(e),
                    Ok(()) => {
                        self.stage = RenderStage::MoveImage;
                        Request::Rename { from: self.image.clone(), to: self.temps[self.index].clone() }
                    },
                }
            },
            (RenderStage::MoveImage, Reply::Io(r)) => {
                match r {
                    Err(e) => self.fail(AppError::PdftoppmExecutionFailed { operation: "render_page_to_png".to_owned(), source: e }),
                    Ok(()) => {
                        self.stage = RenderStage::Persist;
                        Request::Persist {
                            temp: self.temps[self.index].clone(),
                            target: self.plan[self.index].output_path.clone(),
                        }
                    },
                }
            },
            (RenderStage::Persist, Reply::Io(r)) => {
                match r {
                    Err(e) => {
                        let path = self.plan[self.index].output_path.clone();
                        self.fail(AppError::OutputFinalizeFailed { path, source: e })
                    },
                    Ok(()) => {
                        assert(self.index < self.plan.len());
                        let next = self.index + 1;
                        self.render_entry(next)
                    },
                }
            },
            _ => {
                self.stage = RenderStage::Finished;
                Request::Finish(Ok(()))
            },
        }
    }
}


// ------------------------------------------------------------------ laws

/// A render moves nothing into place but its planned images: the PNG file
/// pdftoppm wrote goes onto the current image's temporary file, and that
/// goes onto the image's path; it creates no directory but the output
/// directory.
pub proof fn lemma_render_writes_only_outputs(s: RenderView, reply: Reply, t: RenderView, req: RequestView)
    requires
        render_wf(s),
        render_next(s, reply, t, req),
    ensures
        req is Persist ==> s.index < s.outputs.len() && req->Persist_1 == s.outputs[s.index as int] && req->Persist_0
            == s.temps[s.index as int] && s.stage == RenderStage::MoveImage,
        req is Rename ==> s.index < s.outputs.len() && req->Rename_1 == s.temps[s.index as int] && req->Rename_0
            == s.image && s.stage == RenderStage::ProbeImage,
        req is CreateDirAll ==> req->CreateDirAll_0 == s.args.output_dir@,
{
}

/// Strict mode does not apply to rendering: a render runs qpdf only to count
/// the input's pages, and every other run is pdftoppm's.
pub proof fn lemma_render_runs(s: RenderView, reply: Reply, t: RenderView, req: RequestView)
    requires
        render_next(s, reply, t, req),
    ensures
        req is Run ==> req->Run_0 == show_npages_view(s.qpdf, s.args.input@) || req->Run_0.executable == s.pdftoppm,
{
}

/// How far a render is from its end: the phase, then the steps left in it.
pub open spec fn render_measure(s: RenderView) -> (nat, nat) {
    let left = (s.outputs.len() - s.index) as nat;
    match s.stage {
        RenderStage::CheckInput => (10, 0),
        RenderStage::CountPages => (9, 0),
        RenderStage::ProbeDir => (8, 0),
        RenderStage::MakeDir => (7, 0),
        RenderStage::ProbeParent => (6, 3 * left),
        RenderStage::ProbeOutput => (6, (3 * left - 1) as nat),
        RenderStage::CreateTemp => (6, (3 * left - 2) as nat),
        RenderStage::MakeWorkDir => (5, 6 * left),
        RenderStage::Render => (5, (6 * left - 1) as nat),
        RenderStage::List => (5, (6 * left - 2) as nat),
        RenderStage::ProbeImage => (5, (6 * left - 3) as nat),
        RenderStage::MoveImage => (5, (6 * left - 4) as nat),
        RenderStage::Persist => (5, (6 * left - 5) as nat),
        RenderStage::Finished => (0, 0),
    }
}

/// Every render ends: each step moves its measure down in a well-founded
/// order.
pub proof fn lemma_render_ends(s: RenderView, reply: Reply, t: RenderView, req: RequestView)
    requires
        render_wf(s),
        render_next(s, reply, t, req),
    ensures
        lex_below(render_measure(t), render_measure(s)),
{
}

/// Every output is checked and given its temporary file before pdftoppm renders
/// any of them, and no two outputs share a path: whenever an output is about
/// to be written, every output has its temporary file and the outputs are
/// pairwise different.
pub proof fn lemma_render_prepares_all_first(s: RenderView, reply: Reply, t: RenderView, req: RequestView)
    requires
        render_wf(s),
        render_next(s, reply, t, req),
        t.stage == RenderStage::MakeWorkDir,
    ensures
        t.temps.len() == t.outputs.len(),
        distinct_upto(t.outputs, t.outputs.len() as int),
{
}

/// The first output whose path an earlier output already has ends the run
/// with `OutputAlreadyExists` for that path, before it is looked at or given
/// a temporary file.
pub proof fn lemma_render_refuses_repeat(s: RenderView, reply: Reply, t: RenderView, req: RequestView, j: int)
    requires
        render_wf(s),
        render_next(s, reply, t, req),
        s.stage == RenderStage::CreateTemp,
        reply matches Reply::Created(r) && r is Ok,
        s.index + 1 < s.outputs.len(),
        0 <= j <= s.index,
        s.outputs[j] == s.outputs[s.index as int + 1],
    ensures
        distinct_upto(s.outputs, s.index as int + 1),
        t.stage == RenderStage::Finished,
        req == RequestView::Finish(Err(ErrorView::OutputAlreadyExists(s.outputs[s.index as int + 1]))),
{
}

/// A failed rendering ends the run, and no image of it is moved into place:
/// pdftoppm exiting with failure gives `PdftoppmCommandFailed` with the
/// summary of its error output, pdftoppm not starting gives
/// `PdftoppmExecutionFailed`, and a directory without exactly one PNG file,
/// or with one that does not lie directly in it, gives
/// `PdftoppmCommandFailed`.
pub proof fn lemma_render_failure_reported(s: RenderView, reply: Reply, t: RenderView, req: RequestView)
    requires
        render_wf(s),
        render_next(s, reply, t, req),
    ensures
        reply matches Reply::Ran(ProcessOutcome::Exited { success: false, stderr, .. }) ==> (s.stage
            == RenderStage::Render ==> t.stage == RenderStage::Finished && req == RequestView::Finish(
            Err(ErrorView::PdftoppmCommandFailed(render_operation(), spec_stderr_summary("pdftoppm"@, stderr@))),
        )),
        reply matches Reply::Ran(ProcessOutcome::Failed(e)) ==> (s.stage == RenderStage::Render ==> t.stage
            == RenderStage::Finished && req == RequestView::Finish(
            Err(ErrorView::PdftoppmExecutionFailed(render_operation(), e@)),
        )),
        s.stage == RenderStage::List && (reply matches Reply::Listing(None)) ==> t.stage == RenderStage::Finished && req
            == RequestView::Finish(Err(missing_png())),
        s.stage == RenderStage::List && t.stage == RenderStage::Finished ==> req == RequestView::Finish(
            Err(missing_png()),
        ) || req == RequestView::Finish(Err(misplaced_png())),
        s.stage == RenderStage::List && t.stage != RenderStage::Finished ==> t.stage == RenderStage::ProbeImage
            && req == RequestView::Inspect(t.image),
        s.stage == RenderStage::Render || s.stage == RenderStage::List ==> !(req is Persist) && !(req is Rename),
{
}

/// Each image is rendered from its own page: the pdftoppm run for image `i`
/// asks for plan entry `i`'s page as first and last page, at the requested
/// resolution, from the input, into the directory just made for it; the one
/// PNG file it leaves there is later moved onto image `i`.
pub proof fn lemma_render_draws_each_page(s: RenderView, reply: Reply, t: RenderView, req: RequestView)
    requires
        render_wf(s),
        render_next(s, reply, t, req),
        t.stage == RenderStage::Render,
    ensures
        s.stage == RenderStage::MakeWorkDir,
        t.index == s.index,
        t.index < t.outputs.len(),
        req is Run,
        req->Run_0.executable == s.pdftoppm,
        req->Run_0.args.len() == 9,
        req->Run_0.args[0] == "-f"@,
        req->Run_0.args[1] == decimal(s.plan[s.index as int].1 as nat),
        req->Run_0.args[2] == "-l"@,
        req->Run_0.args[3] == decimal(s.plan[s.index as int].1 as nat),
        req->Run_0.args[4] == "-r"@,
        req->Run_0.args[5] == decimal(s.args.dpi as nat),
        req->Run_0.args[6] == "-png"@,
        req->Run_0.args[7] == s.args.input@,
        join_fact(t.workdir, "rendered"@, req->Run_0.args[8]),
{
}

/// A render takes any specification that selects at least one page,
/// `odd` and `even` included, and shows exactly its pages; one that selects
/// none is refused as empty.
pub proof fn lemma_render_rules(pages: Seq<char>, total: u32)
    ensures
        spec_parse(pages) matches Ok(items) ==> (spec_resolve(items, total) matches Ok(ps) ==> (ps.len() > 0
            ==> spec_render_pages(pages, total) == Ok::<Seq<u32>, PageFailure>(ps))),
        spec_parse(pages) matches Ok(items) ==> (spec_resolve(items, total) matches Ok(ps) ==> (ps.len() == 0
            ==> spec_render_pages(pages, total) == Err::<Seq<u32>, PageFailure>(PageFailure::Empty))),
{
    if let Ok(items) = spec_parse(pages) {
        crate::page_spec::lemma_rules_outcome(items, total, render_rules());
    }
}

} // verus!
