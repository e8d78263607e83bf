use vstd::prelude::*;

use crate::error::{AppError, ErrorView};
use crate::text::{
    append_chars, chars_eq, chars_eq_ignore_ascii_case, chars_to_string, eq_ignore_ascii_case,
    join_with, str_chars,
};

verus! {

#[verifier::external_type_specification]
#[verifier::external_body]
pub struct ExJsonValue(serde_json::Value);

/// A JSON document as the strict inspection reads it. Numbers are kept
/// without their value, which the inspection never looks at.
#[derive(Debug)]
pub enum JsonValue {
    Null,
    Bool(bool),
    Number,
    String(String),
    Array(Vec<JsonValue>),
    Object(Vec<(String, JsonValue)>),
}

/// Document-level information that page operations cannot keep intact.
#[derive(Debug, Clone, Copy, PartialEq, Eq, PartialOrd, Ord, Structural)]
pub enum StrictFeature {
    Outlines,
    StructTree,
    AcroForm,
    PageLabels,
    Names,
    Attachments,
    Encrypted,
}

/// What a strict inspection found, in the order of `StrictFeature`.
#[derive(Debug, Clone, PartialEq, Eq)]
pub struct StrictInspection {
    features: Vec<StrictFeature>,
}

// -------------------------------------------------------- JSON predicates

/// An object with at least one entry.
pub open spec fn non_empty_object(v: JsonValue) -> bool {
    v matches JsonValue::Object(es) && es@.len() > 0
}

/// An object or an array with at least one element.
pub open spec fn non_empty_container(v: JsonValue) -> bool {
    non_empty_object(v) || (v matches JsonValue::Array(items) && items@.len() > 0)
}

/// The value of the first entry of an object whose key is exactly `key`.
pub open spec fn object_get(es: Seq<(String, JsonValue)>, key: Seq<char>) -> Option<JsonValue>
    decreases es.len(),
{
    if es.len() == 0 {
        None
    } else if es[0].0@ == key {
        Some(es[0].1)
    } else {
        object_get(es.drop_first(), key)
    }
}

/// An `acroform` section that says it holds a form: `hasacroform` is `true`
/// or `fields` is a non-empty array.
pub open spec fn acroform_present(v: JsonValue) -> bool {
    v matches JsonValue::Object(es) && (object_get(es@, "hasacroform"@) == Some(JsonValue::Bool(true))
        || non_empty_array(object_get(es@, "fields"@)))
}

/// A non-empty array is present.
pub open spec fn non_empty_array(v: Option<JsonValue>) -> bool {
    v matches Some(JsonValue::Array(items)) && items@.len() > 0
}

/// An `encrypt` section that says the document is encrypted.
pub open spec fn encryption_present(v: JsonValue) -> bool {
    v matches JsonValue::Object(es) && object_get(es@, "encrypted"@) == Some(JsonValue::Bool(true))
}

/// `key` equals one of the names, ignoring ASCII case.
pub open spec fn key_is(key: Seq<char>, name: Seq<char>) -> bool {
    eq_ignore_ascii_case(key, name)
}

/// An object entry `key: value` that reveals the feature `f`.
pub open spec fn entry_marks(f: StrictFeature, key: Seq<char>, value: JsonValue) -> bool {
    match f {
        StrictFeature::Outlines => key_is(key, "outlines"@) && non_empty_container(value),
        StrictFeature::AcroForm => key_is(key, "acroform"@) && acroform_present(value),
        StrictFeature::PageLabels => (key_is(key, "pagelabels"@) || key_is(key, "page_labels"@))
            && non_empty_container(value),
        StrictFeature::StructTree => (key_is(key, "tagged"@) && value == JsonValue::Bool(true)) || ((
        key_is(key, "structtreeroot"@) || key_is(key, "struct_tree_root"@) || key_is(
            key,
            "/StructTreeRoot"@,
        )) && value is String),
        StrictFeature::Attachments => (key_is(key, "embeddedfiles"@) || key_is(key, "embedded_files"@)
            || key_is(key, "attachments"@)) && non_empty_object(value),
        StrictFeature::Names => key_is(key, "names"@) && non_empty_object(value),
        StrictFeature::Encrypted => (key_is(key, "encrypted"@) && value == JsonValue::Bool(true)) || ((
        key_is(key, "encrypt"@) || key_is(key, "encryption"@)) && encryption_present(value)),
    }
}

/// Some object anywhere in `v`, at any depth, has an entry that reveals `f`.
pub open spec fn marks_in_value(f: StrictFeature, v: JsonValue) -> bool
    decreases v,
{
    match v {
        JsonValue::Object(es) => marks_in_entries(f, es@),
        JsonValue::Array(items) => marks_in_items(f, items@),
        _ => false,
    }
}

/// Some entry of an object, or something inside its value, reveals `f`.
pub open spec fn marks_in_entries(f: StrictFeature, es: Seq<(String, JsonValue)>) -> bool
    decreases es,
{
    if es.len() == 0 {
        false
    } else {
        marks_in_entries(f, es.drop_last()) || entry_marks(f, es.last().0@, es.last().1)
            || marks_in_value(f, es.last().1)
    }
}

/// Something inside one of the items of an array reveals `f`.
pub open spec fn marks_in_items(f: StrictFeature, items: Seq<JsonValue>) -> bool
    decreases items,
{
    if items.len() == 0 {
        false
    } else {
        marks_in_items(f, items.drop_last()) || marks_in_value(f, items.last())
    }
}

// ------------------------------------------------------------- the walk

/// Which features a walk has seen so far.
struct StrictSummary {
    outlines: bool,
    struct_tree: bool,
    acroform: bool,
    page_labels: bool,
    names: bool,
    attachments: bool,
    encrypted: bool,
}

impl StrictSummary {
    spec fn has(self, f: StrictFeature) -> bool {
        match f {
            StrictFeature::Outlines => self.outlines,
            StrictFeature::StructTree => self.struct_tree,
            StrictFeature::AcroForm => self.acroform,
            StrictFeature::PageLabels => self.page_labels,
            StrictFeature::Names => self.names,
            StrictFeature::Attachments => self.attachments,
            StrictFeature::Encrypted => self.encrypted,
        }
    }
}

fn get_entry<'a>(es: &'a Vec<(String, JsonValue)>, key: &str) -> (r: Option<&'a JsonValue>)
    ensures
        match (r, object_get(es@, key@)) {
            (Some(v), Some(w)) => *v == w,
            (None, None) => true,
            _ => false,
        },
{
    let k = str_chars(key);
    let mut i: usize = 0;
    assert(es@.skip(0) =~= es@);
    while i < es.len()
        invariant
            i <= es.len(),
            k@ == key@,
            object_get(es@, key@) == object_get(es@.skip(i as int), key@),
        decreases es.len() - i,
    {
        assert(es@.skip(i as int)[0] == es@[i as int]);
        assert(es@.skip(i as int).drop_first() =~= es@.skip(i + 1));
        if chars_eq(&str_chars(es[i].0.as_str()), &k) {
            return Some(&es[i].1);
        }
        i += 1;
    }
    None
}

fn is_true(v: Option<&JsonValue>) -> (b: bool)
    ensures
        b == (match v {
            Some(w) => *w == JsonValue::Bool(true),
            None => false,
        }),
{
    match v {
        Some(JsonValue::Bool(true)) => true,
        _ => false,
    }
}

fn is_non_empty_object(v: &JsonValue) -> (b: bool)
    ensures
        b == non_empty_object(*v),
{
    match v {
        JsonValue::Object(es) => es.len() > 0,
        _ => false,
    }
}

fn is_non_empty_container(v: &JsonValue) -> (b: bool)
    ensures
        b == non_empty_container(*v),
{
    match v {
        JsonValue::Object(es) => es.len() > 0,
        JsonValue::Array(items) => items.len() > 0,
        _ => false,
    }
}

fn acroform_value_present(v: &JsonValue) -> (b: bool)
    ensures
        b == acroform_present(*v),
{
    match v {
        JsonValue::Object(es) => {
            let fields = match get_entry(es, "fields") {
                Some(JsonValue::Array(items)) => items.len() > 0,
                _ => false,
            };
            is_true(get_entry(es, "hasacroform")) || fields
        },
        _ => false,
    }
}

fn encryption_value_present(v: &JsonValue) -> (b: bool)
    ensures
        b == encryption_present(*v),
{
    match v {
        JsonValue::Object(es) => is_true(get_entry(es, "encrypted")),
        _ => false,
    }
}

fn key_matches(key: &Vec<char>, name: &str) -> (b: bool)
    ensures
        b == key_is(key@, name@),
{
    chars_eq_ignore_ascii_case(key, &str_chars(name))
}

/// Records the features that one entry `key: value` reveals. The keys the
/// inspection looks for differ from each other in more than ASCII case, so at
/// most one feature's keys match.
fn visit_entry(key: &String, value: &JsonValue, s: &mut StrictSummary)
    ensures
        forall|f: StrictFeature| #[trigger] final(s).has(f) == (old(s).has(f) || entry_marks(f, key@, *value)),
{
    let k = str_chars(key.as_str());
    let is_true_value = match value {
        JsonValue::Bool(true) => true,
        _ => false,
    };
    let is_string = match value {
        JsonValue::String(_) => true,
        _ => false,
    };
    if key_matches(&k, "outlines") && is_non_empty_container(value) {
        s.outlines = true;
    }
    if key_matches(&k, "acroform") && acroform_value_present(value) {
        s.acroform = true;
    }
    if (key_matches(&k, "pagelabels") || key_matches(&k, "page_labels")) && is_non_empty_container(value) {
        s.page_labels = true;
    }
    if key_matches(&k, "tagged") && is_true_value {
        s.struct_tree = true;
    }
    if (key_matches(&k, "structtreeroot") || key_matches(&k, "struct_tree_root") || key_matches(
        &k,
        "/StructTreeRoot",
    )) && is_string {
        s.struct_tree = true;
    }
    if (key_matches(&k, "embeddedfiles") || key_matches(&k, "embedded_files") || key_matches(
        &k,
        "attachments",
    )) && is_non_empty_object(value) {
        s.attachments = true;
    }
    if key_matches(&k, "names") && is_non_empty_object(value) {
        s.names = true;
    }
    if key_matches(&k, "encrypted") && is_true_value {
        s.encrypted = true;
    }
    if (key_matches(&k, "encrypt") || key_matches(&k, "encryption")) && encryption_value_present(value) {
        s.encrypted = true;
    }
}

/// Records every feature that something inside `v` reveals.
fn walk_value(v: &JsonValue, s: &mut StrictSummary)
    ensures
        forall|f: StrictFeature| #[trigger] final(s).has(f) == (old(s).has(f) || marks_in_value(f, *v)),
    decreases v,
{
    match v {
        JsonValue::Object(es) => {
            let mut i: usize = 0;
            assert(es@.take(0) =~= Seq::<(String, JsonValue)>::empty());
            while i < es.len()
                invariant
                    i <= es.len(),
                    *v == JsonValue::Object(*es),
                    forall|f: StrictFeature| #[trigger] s.has(f) == (old(s).has(f) || marks_in_entries(f, es@.take(i as int))),
                decreases es.len() - i,
            {
                assert(es@.take(i + 1).drop_last() =~= es@.take(i as int));
                assert(es@.take(i + 1).last() == es@[i as int]);
                visit_entry(&es[i].0, &es[i].1, s);
                proof {
                    let ghost ev = es@;
                    assert(decreases_to!(*v => (*v)->Object_0));
                    assert(decreases_to!(*es => ev));
                    assert(decreases_to!(ev => ev[i as int]));
                    assert(decreases_to!(ev[i as int] => ev[i as int].1));
                }
                walk_value(&es[i].1, s);
                i += 1;
            }
            assert(es@.take(es.len() as int) =~= es@);
        },
        JsonValue::Array(items) => {
            let mut i: usize = 0;
            assert(items@.take(0) =~= Seq::<JsonValue>::empty());
            while i < items.len()
                invariant
                    i <= items.len(),
                    *v == JsonValue::Array(*items),
                    forall|f: StrictFeature| #[trigger] s.has(f) == (old(s).has(f) || marks_in_items(f, items@.take(i as int))),
                decreases items.len() - i,
            {
                assert(items@.take(i + 1).drop_last() =~= items@.take(i as int));
                assert(items@.take(i + 1).last() == items@[i as int]);
                proof {
                    let ghost iv = items@;
                    assert(decreases_to!(*v => (*v)->Array_0));
                    assert(decreases_to!(*items => iv));
                    assert(decreases_to!(iv => iv[i as int]));
                }
                walk_value(&items[i], s);
                i += 1;
            }
            assert(items@.take(items.len() as int) =~= items@);
        },
        _ => {},
    }
}

// -------------------------------------------------------------- features

/// `seq![f]` when something in the document reveals `f`, else nothing.
pub open spec fn found(f: StrictFeature, root: JsonValue) -> Seq<StrictFeature> {
    if marks_in_value(f, root) {
        seq![f]
    } else {
        Seq::empty()
    }
}

/// The features a document reveals, in the order of `StrictFeature`.
pub open spec fn spec_features(root: JsonValue) -> Seq<StrictFeature> {
    found(StrictFeature::Outlines, root) + found(StrictFeature::StructTree, root) + found(
        StrictFeature::AcroForm,
        root,
    ) + found(StrictFeature::PageLabels, root) + found(StrictFeature::Names, root) + found(
        StrictFeature::Attachments,
        root,
    ) + found(StrictFeature::Encrypted, root)
}

fn push_if(v: &mut Vec<StrictFeature>, flag: bool, f: StrictFeature)
    ensures
        final(v)@ == old(v)@ + (if flag {
            seq![f]
        } else {
            Seq::<StrictFeature>::empty()
        }),
{
    if flag {
        v.push(f);
        assert(final(v)@ =~= old(v)@ + seq![f]);
    } else {
        assert(old(v)@ + Seq::<StrictFeature>::empty() =~= old(v)@);
    }
}

fn collect_features(root: &JsonValue) -> (r: Vec<StrictFeature>)
    ensures
        r@ == spec_features(*root),
{
    let mut s = StrictSummary {
        outlines: false,
        struct_tree: false,
        acroform: false,
        page_labels: false,
        names: false,
        attachments: false,
        encrypted: false,
    };
    walk_value(root, &mut s);
    let ghost r = *root;
    let mut features: Vec<StrictFeature> = Vec::new();
    assert(s.has(StrictFeature::Outlines) == marks_in_value(StrictFeature::Outlines, r));
    push_if(&mut features, s.outlines, StrictFeature::Outlines);
    assert(s.has(StrictFeature::StructTree) == marks_in_value(StrictFeature::StructTree, r));
    push_if(&mut features, s.struct_tree, StrictFeature::StructTree);
    assert(s.has(StrictFeature::AcroForm) == marks_in_value(StrictFeature::AcroForm, r));
    push_if(&mut features, s.acroform, StrictFeature::AcroForm);
    assert(s.has(StrictFeature::PageLabels) == marks_in_value(StrictFeature::PageLabels, r));
    push_if(&mut features, s.page_labels, StrictFeature::PageLabels);
    assert(s.has(StrictFeature::Names) == marks_in_value(StrictFeature::Names, r));
    push_if(&mut features, s.names, StrictFeature::Names);
    assert(s.has(StrictFeature::Attachments) == marks_in_value(StrictFeature::Attachments, r));
    push_if(&mut features, s.attachments, StrictFeature::Attachments);
    assert(s.has(StrictFeature::Encrypted) == marks_in_value(StrictFeature::Encrypted, r));
    push_if(&mut features, s.encrypted, StrictFeature::Encrypted);
    assert(features@ =~= spec_features(r));
    features
}

// ------------------------------------------------------------ inspection

/// The words that name a feature in messages.
pub open spec fn describe(f: StrictFeature) -> Seq<char> {
    match f {
        StrictFeature::Outlines => "outlines/bookmarks"@,
        StrictFeature::StructTree => "tagged PDF logical structure"@,
        StrictFeature::AcroForm => "AcroForm/forms"@,
        StrictFeature::PageLabels => "page labels"@,
        StrictFeature::Names => "document-level name trees"@,
        StrictFeature::Attachments => "attachments/embedded files"@,
        StrictFeature::Encrypted => "encryption/password protection"@,
    }
}

impl StrictFeature {
    /// The words that name this feature in messages.
    pub fn description(self) -> (r: &'static str)
        ensures
            r@ == describe(self),
    {
        match self {
            StrictFeature::Outlines => "outlines/bookmarks",
            StrictFeature::StructTree => "tagged PDF logical structure",
            StrictFeature::AcroForm => "AcroForm/forms",
            StrictFeature::PageLabels => "page labels",
            StrictFeature::Names => "document-level name trees",
            StrictFeature::Attachments => "attachments/embedded files",
            StrictFeature::Encrypted => "encryption/password protection",
        }
    }
}

/// The parsed JSON output of `qpdf --json` for the bytes `bytes`, or the
/// parser's message when they are not JSON.
pub uninterp spec fn qpdf_json_document(bytes: Seq<u8>) -> Result<JsonValue, Seq<char>>;

/// The library's copy of a `serde_json::Value`, one variant for one variant,
/// object entries in the map's order. Numbers keep no value.
#[verifier::external_body]
fn json_from_value(v: serde_json::Value) -> JsonValue {
    match v {
        serde_json::Value::Null => JsonValue::Null,
        serde_json::Value::Bool(b) => JsonValue::Bool(b),
        serde_json::Value::Number(_) => JsonValue::Number,
        serde_json::Value::String(s) => JsonValue::String(s),
        serde_json::Value::Array(a) => JsonValue::Array(a.into_iter().map(json_from_value).collect()),
        serde_json::Value::Object(m) => JsonValue::Object(m.into_iter().map(|(k, v)| (k, json_from_value(v))).collect()),
    }
}

/// `serde_json::from_slice::<serde_json::Value>`: the document that the bytes
/// hold, or the text of the parser's error. The result is named, as a
/// function of the bytes alone.
#[verifier::external_body]
fn parse_json(bytes: &[u8]) -> (r: Result<JsonValue, String>)
    ensures
        match (r, qpdf_json_document(bytes@)) {
            (Ok(v), Ok(w)) => v == w,
            (Err(e), Err(m)) => e@ == m,
            _ => false,
        },
{
    match serde_json::from_slice::<serde_json::Value>(bytes) {
        Ok(v) => Ok(json_from_value(v)),
        Err(e) => Err(e.to_string()),
    }
}

/// The message for output of `qpdf --json` that is not JSON.
pub open spec fn bad_json_message(m: Seq<char>) -> Seq<char> {
    "unexpected qpdf --json output: "@ + m
}

impl View for StrictInspection {
    type V = Seq<StrictFeature>;

    closed spec fn view(&self) -> Seq<StrictFeature> {
        self.features@
    }
}

impl StrictInspection {
    /// The inspection of a parsed document: the features it reveals, in the
    /// order of `StrictFeature`.
    pub fn from_json_value(root: &JsonValue) -> (r: StrictInspection)
        ensures
            r@ == spec_features(*root),
    {
        StrictInspection { features: collect_features(root) }
    }

    /// The inspection of the output of `qpdf --json`, or the message that
    /// reports output that is not JSON.
    pub fn from_qpdf_json_reader(reader: &[u8]) -> (r: Result<StrictInspection, String>)
        ensures
            match (r, qpdf_json_document(reader@)) {
                (Ok(i), Ok(doc)) => i@ == spec_features(doc),
                (Err(e), Err(m)) => e@ == bad_json_message(m),
                _ => false,
            },
    {
        match parse_json(reader) {
            Ok(root) => Ok(StrictInspection::from_json_value(&root)),
            Err(m) => {
                let mut msg = str_chars("unexpected qpdf --json output: ");
                append_chars(&mut msg, &str_chars(m.as_str()));
                Err(chars_to_string(&msg))
            },
        }
    }

    /// The features found, in the order of `StrictFeature`.
    pub fn features(&self) -> (r: &[StrictFeature])
        ensures
            r@ == self@,
    {
        self.features.as_slice()
    }

    /// Whether nothing was found.
    pub fn is_clean(&self) -> (b: bool)
        ensures
            b == (self@.len() == 0),
    {
        self.features.len() == 0
    }
}

/// The detail of a strict violation: the features' descriptions, comma separated.
pub open spec fn violation_detail(features: Seq<StrictFeature>) -> Seq<char> {
    join_with(features.map_values(|f: StrictFeature| describe(f)), ", "@)
}

/// The outcome of strict mode for `path` once it is inspected: success when
/// nothing was found, else `StrictViolation` naming every feature found.
pub fn strict_result(path: &str, inspection: &StrictInspection) -> (r: Result<(), AppError>)
    ensures
        inspection@.len() == 0 ==> r is Ok,
        inspection@.len() > 0 ==> (r matches Err(AppError::StrictViolation { path: p, detail: d }) && p@
            == path@ && d@ == violation_detail(inspection@)),
{
    if inspection.is_clean() {
        return Ok(());
    }
    let features = inspection.features();
    let ghost parts = inspection@.map_values(|f: StrictFeature| describe(f));
    let sep = str_chars(", ");
    let mut out: Vec<char> = Vec::new();
    let mut i: usize = 0;
    while i < features.len()
        invariant
            i <= features@.len(),
            features@ == inspection@,
            sep@ == ", "@,
            parts == inspection@.map_values(|f: StrictFeature| describe(f)),
            out@ == join_with(parts.take(i as int), ", "@),
        decreases features@.len() - i,
    {
        assert(parts.take(i + 1).drop_last() =~= parts.take(i as int));
        assert(parts.take(i + 1).last() == describe(features@[i as int]));
        if i > 0 {
            append_chars(&mut out, &sep);
        } else {
            assert(out@ =~= Seq::<char>::empty());
        }
        let d = str_chars(features[i].description());
        append_chars(&mut out, &d);
        if i == 0 {
            assert(out@ =~= d@);
        }
        i += 1;
    }
    assert(parts.take(features@.len() as int) =~= parts);
    Err(AppError::StrictViolation { path: path.to_owned(), detail: chars_to_string(&out) })
}

/// The message shown before a strict inspection when asked to be verbose.
pub open spec fn strict_info_message(input: Seq<char>) -> Seq<char> {
    "info: strict inspection via qpdf --json for "@ + input
}

/// The message shown before a strict inspection when asked to be verbose.
pub fn strict_info(input: &str) -> (r: String)
    ensures
        r@ == strict_info_message(input@),
{
    let mut v = str_chars("info: strict inspection via qpdf --json for ");
    append_chars(&mut v, &str_chars(input));
    chars_to_string(&v)
}

/// The outcome of strict mode for `path` from what its `qpdf --json` run
/// reported: success when nothing was found, else the error.
pub open spec fn spec_strict_outcome(path: Seq<char>, found: Result<Seq<StrictFeature>, ErrorView>) -> Result<(), ErrorView> {
    match found {
        Err(v) => Err(v),
        Ok(fs) => if fs.len() == 0 {
            Ok(())
        } else {
            Err(ErrorView::StrictViolation(path, violation_detail(fs)))
        },
    }
}

/// Strict mode for `input` once its `qpdf --json` run is over: success when
/// the document holds none of the features, else the error to report.
pub fn enforce_on_input(input: &str, qpdf: &crate::qpdf_runner::QpdfRunner, outcome: &crate::protocol::ProcessOutcome) -> (r: Result<(), AppError>)
    ensures
        match (r, spec_strict_outcome(input@, crate::qpdf_runner::spec_inspect_strict(*outcome))) {
            (Ok(()), Ok(())) => true,
            (Err(e), Err(v)) => e@ == v,
            _ => false,
        },
{
    let inspection = qpdf.inspect_strict_features(outcome)?;
    strict_result(input, &inspection)
}


// ------------------------------------------------------------------ laws

/// The rank of a feature in the order of `StrictFeature`.
pub open spec fn feature_rank(f: StrictFeature) -> int {
    match f {
        StrictFeature::Outlines => 0,
        StrictFeature::StructTree => 1,
        StrictFeature::AcroForm => 2,
        StrictFeature::PageLabels => 3,
        StrictFeature::Names => 4,
        StrictFeature::Attachments => 5,
        StrictFeature::Encrypted => 6,
    }
}

proof fn lemma_concat_contains(x: Seq<StrictFeature>, y: Seq<StrictFeature>, f: StrictFeature)
    ensures
        (x + y).contains(f) <==> x.contains(f) || y.contains(f),
{
    if x.contains(f) {
        let i = choose|i: int| 0 <= i < x.len() && x[i] == f;
        assert((x + y)[i] == f);
    }
    if y.contains(f) {
        let i = choose|i: int| 0 <= i < y.len() && y[i] == f;
        assert((x + y)[x.len() + i] == f);
    }
    if (x + y).contains(f) {
        let i = choose|i: int| 0 <= i < (x + y).len() && (x + y)[i] == f;
        if i < x.len() {
            assert(x[i] == f);
        } else {
            assert(y[i - x.len()] == f);
        }
    }
}

proof fn lemma_found_contains(g: StrictFeature, root: JsonValue, f: StrictFeature)
    ensures
        found(g, root).contains(f) <==> g == f && marks_in_value(f, root),
{
    if g == f && marks_in_value(f, root) {
        assert(found(g, root)[0] == f);
    }
}

/// The features of `s` come in strictly increasing rank.
pub open spec fn rank_sorted(s: Seq<StrictFeature>) -> bool {
    forall|i: int, j: int| 0 <= i < j < s.len() ==> feature_rank(#[trigger] s[i]) < feature_rank(#[trigger] s[j])
}

proof fn lemma_append_found(x: Seq<StrictFeature>, g: StrictFeature, root: JsonValue)
    requires
        rank_sorted(x),
        forall|i: int| 0 <= i < x.len() ==> feature_rank(#[trigger] x[i]) < feature_rank(g),
    ensures
        rank_sorted(x + found(g, root)),
        forall|i: int| 0 <= i < (x + found(g, root)).len() ==> feature_rank(#[trigger] (x + found(g, root))[i]) < feature_rank(g) + 1,
{
    let y = x + found(g, root);
    assert forall|i: int| 0 <= i < y.len() implies feature_rank(#[trigger] y[i]) < feature_rank(g) + 1 by {
        if i >= x.len() {
            assert(y[i] == g);
        }
    }
    assert forall|i: int, j: int| 0 <= i < j < y.len() implies feature_rank(#[trigger] y[i]) < feature_rank(#[trigger] y[j]) by {
        if j >= x.len() {
            assert(y[j] == g);
            assert(i < x.len());
        }
    }
}

proof fn lemma_features_order(root: JsonValue)
    ensures
        rank_sorted(spec_features(root)),
{
    let a = found(StrictFeature::Outlines, root);
    let b = found(StrictFeature::StructTree, root);
    let c = found(StrictFeature::AcroForm, root);
    let d = found(StrictFeature::PageLabels, root);
    let e = found(StrictFeature::Names, root);
    let g = found(StrictFeature::Attachments, root);
    let e0 = Seq::<StrictFeature>::empty();
    assert(e0 + a =~= a);
    lemma_append_found(e0, StrictFeature::Outlines, root);
    lemma_append_found(a, StrictFeature::StructTree, root);
    lemma_append_found(a + b, StrictFeature::AcroForm, root);
    lemma_append_found(a + b + c, StrictFeature::PageLabels, root);
    lemma_append_found(a + b + c + d, StrictFeature::Names, root);
    lemma_append_found(a + b + c + d + e, StrictFeature::Attachments, root);
    lemma_append_found(a + b + c + d + e + g, StrictFeature::Encrypted, root);
}

proof fn lemma_features_membership(root: JsonValue, f: StrictFeature)
    ensures
        spec_features(root).contains(f) <==> marks_in_value(f, root),
{
    let a = found(StrictFeature::Outlines, root);
    let b = found(StrictFeature::StructTree, root);
    let c = found(StrictFeature::AcroForm, root);
    let d = found(StrictFeature::PageLabels, root);
    let e = found(StrictFeature::Names, root);
    let g = found(StrictFeature::Attachments, root);
    let h = found(StrictFeature::Encrypted, root);
    lemma_concat_contains(a, b, f);
    lemma_concat_contains(a + b, c, f);
    lemma_concat_contains(a + b + c, d, f);
    lemma_concat_contains(a + b + c + d, e, f);
    lemma_concat_contains(a + b + c + d + e, g, f);
    lemma_concat_contains(a + b + c + d + e + g, h, f);
    lemma_found_contains(StrictFeature::Outlines, root, f);
    lemma_found_contains(StrictFeature::StructTree, root, f);
    lemma_found_contains(StrictFeature::AcroForm, root, f);
    lemma_found_contains(StrictFeature::PageLabels, root, f);
    lemma_found_contains(StrictFeature::Names, root, f);
    lemma_found_contains(StrictFeature::Attachments, root, f);
    lemma_found_contains(StrictFeature::Encrypted, root, f);
}

/// An inspection reports a feature exactly when the document reveals it,
/// each feature once, in the order of `StrictFeature`.
pub proof fn lemma_features_exact(root: JsonValue)
    ensures
        forall|f: StrictFeature| #[trigger] spec_features(root).contains(f) <==> marks_in_value(f, root),
        rank_sorted(spec_features(root)),
        spec_features(root).no_duplicates(),
{
    let fs = spec_features(root);
    lemma_features_order(root);
    assert forall|f: StrictFeature| #[trigger] fs.contains(f) <==> marks_in_value(f, root) by {
        lemma_features_membership(root, f);
    }
    assert forall|i: int, j: int| 0 <= i < fs.len() && 0 <= j < fs.len() && i != j implies fs[i] != fs[j] by {
        if i < j {
            assert(feature_rank(fs[i]) < feature_rank(fs[j]));
        } else {
            assert(feature_rank(fs[j]) < feature_rank(fs[i]));
        }
    }
}

/// A JSON value with nothing inside it.
pub open spec fn is_scalar(v: JsonValue) -> bool {
    !(v is Array) && !(v is Object)
}

proof fn lemma_scalars_mark_nothing(f: StrictFeature, items: Seq<JsonValue>)
    requires
        forall|i: int| 0 <= i < items.len() ==> is_scalar(#[trigger] items[i]),
    ensures
        !marks_in_items(f, items),
    decreases items.len(),
{
    if items.len() > 0 {
        assert(is_scalar(items[items.len() - 1]));
        assert forall|i: int| 0 <= i < items.drop_last().len() implies is_scalar(#[trigger] items.drop_last()[i]) by {
            assert(items.drop_last()[i] == items[i]);
        }
        lemma_scalars_mark_nothing(f, items.drop_last());
        assert(!marks_in_value(f, items.last()));
    }
}

proof fn lemma_entry_marks_object(f: StrictFeature, es: Seq<(String, JsonValue)>, i: int)
    requires
        0 <= i < es.len(),
        entry_marks(f, es[i].0@, es[i].1),
    ensures
        marks_in_entries(f, es),
    decreases es.len(),
{
    if i < es.len() - 1 {
        assert(es.drop_last()[i] == es[i]);
        lemma_entry_marks_object(f, es.drop_last(), i);
    }
}

proof fn lemma_only_feature(root: JsonValue, f: StrictFeature)
    requires
        marks_in_value(f, root),
        forall|g: StrictFeature| g != f ==> !marks_in_value(g, root),
    ensures
        spec_features(root) == seq![f],
{
    lemma_features_exact(root);
    let fs = spec_features(root);
    assert(fs.contains(f));
    assert forall|i: int| 0 <= i < fs.len() implies fs[i] == f by {
        assert(fs.contains(fs[i]));
    }
    if fs.len() > 1 {
        assert(fs[0] == f && fs[1] == f);
    }
    assert(fs =~= seq![f]);
}

proof fn lemma_no_feature(root: JsonValue)
    requires
        forall|g: StrictFeature| !marks_in_value(g, root),
    ensures
        spec_features(root) == Seq::<StrictFeature>::empty(),
{
    lemma_features_exact(root);
    let fs = spec_features(root);
    if fs.len() > 0 {
        assert(fs.contains(fs[0]));
    }
    assert(fs =~= Seq::<StrictFeature>::empty());
}

/// What a top-level entry of `qpdf --json` output makes the inspection
/// report. Keys are matched ignoring ASCII case: `outlines` or `pagelabels` /
/// `page_labels` with a non-empty array or object; `names`, or
/// `embeddedfiles` / `embedded_files` / `attachments`, with a non-empty
/// object; `tagged: true` or a `structtreeroot` / `struct_tree_root` /
/// `/StructTreeRoot` string; `acroform` with an object that says
/// `hasacroform: true` or lists a field; `encrypted: true`, or `encrypt` /
/// `encryption` with an object that says `encrypted: true`.
pub proof fn lemma_top_level_entry_reported(root: JsonValue, i: int, key: Seq<char>, value: JsonValue)
    requires
        root is Object,
        0 <= i < root->Object_0@.len(),
        root->Object_0@[i].0@ == key,
        root->Object_0@[i].1 == value,
    ensures
        eq_ignore_ascii_case(key, "outlines"@) && ((value matches JsonValue::Array(a) && a@.len() > 0) || (
        value matches JsonValue::Object(o) && o@.len() > 0)) ==> spec_features(root).contains(StrictFeature::Outlines),
        (eq_ignore_ascii_case(key, "pagelabels"@) || eq_ignore_ascii_case(key, "page_labels"@)) && ((value matches JsonValue::Array(
            a,
        ) && a@.len() > 0) || (value matches JsonValue::Object(o) && o@.len() > 0)) ==> spec_features(root).contains(
            StrictFeature::PageLabels,
        ),
        eq_ignore_ascii_case(key, "names"@) && (value matches JsonValue::Object(o) && o@.len() > 0) ==> spec_features(
            root,
        ).contains(StrictFeature::Names),
        (eq_ignore_ascii_case(key, "embeddedfiles"@) || eq_ignore_ascii_case(key, "embedded_files"@)
            || eq_ignore_ascii_case(key, "attachments"@)) && (value matches JsonValue::Object(o) && o@.len() > 0)
            ==> spec_features(root).contains(StrictFeature::Attachments),
        eq_ignore_ascii_case(key, "tagged"@) && value == JsonValue::Bool(true) ==> spec_features(root).contains(
            StrictFeature::StructTree,
        ),
        (eq_ignore_ascii_case(key, "structtreeroot"@) || eq_ignore_ascii_case(key, "struct_tree_root"@)
            || eq_ignore_ascii_case(key, "/StructTreeRoot"@)) && value is String ==> spec_features(root).contains(
            StrictFeature::StructTree,
        ),
        eq_ignore_ascii_case(key, "acroform"@) && (value matches JsonValue::Object(o) && o@.len() > 0 && ((o@[0].0@
            == "hasacroform"@ && o@[0].1 == JsonValue::Bool(true)) || (o@[0].0@ == "fields"@ && (o@[0].1 matches JsonValue::Array(
            fs,
        ) && fs@.len() > 0)))) ==> spec_features(root).contains(StrictFeature::AcroForm),
        eq_ignore_ascii_case(key, "encrypted"@) && value == JsonValue::Bool(true) ==> spec_features(root).contains(
            StrictFeature::Encrypted,
        ),
        (eq_ignore_ascii_case(key, "encrypt"@) || eq_ignore_ascii_case(key, "encryption"@)) && (value matches JsonValue::Object(
            o,
        ) && o@.len() > 0 && o@[0].0@ == "encrypted"@ && o@[0].1 == JsonValue::Bool(true)) ==> spec_features(
            root,
        ).contains(StrictFeature::Encrypted),
{
    lemma_features_exact(root);
    let es = root->Object_0@;
    assert forall|f: StrictFeature| entry_marks(f, key, value) implies #[trigger] marks_in_value(f, root) by {
        lemma_entry_marks_object(f, es, i);
    }
    if let JsonValue::Object(o) = value {
        if o@.len() > 0 {
            assert(object_get(o@, o@[0].0@) == Some(o@[0].1));
        }
    }
}

/// A document whose only entry holds a non-empty array of plain values
/// reveals outlines when the key is `outlines`, page labels when it is
/// `pagelabels` or `page_labels` (in any ASCII case), and nothing otherwise.
pub proof fn lemma_array_entry_exact(root: JsonValue, key: Seq<char>, value: JsonValue)
    requires
        root is Object,
        root->Object_0@.len() == 1,
        root->Object_0@[0].0@ == key,
        root->Object_0@[0].1 == value,
        value is Array,
        value->Array_0@.len() > 0,
        forall|i: int| 0 <= i < value->Array_0@.len() ==> is_scalar(#[trigger] value->Array_0@[i]),
    ensures
        spec_features(root) == if eq_ignore_ascii_case(key, "outlines"@) {
            seq![StrictFeature::Outlines]
        } else if eq_ignore_ascii_case(key, "pagelabels"@) || eq_ignore_ascii_case(key, "page_labels"@) {
            seq![StrictFeature::PageLabels]
        } else {
            Seq::<StrictFeature>::empty()
        },
{
    reveal_strlit("outlines");
    reveal_strlit("pagelabels");
    reveal_strlit("page_labels");
    let es = root->Object_0@;
    assert(es.drop_last() =~= Seq::<(String, JsonValue)>::empty());
    assert forall|g: StrictFeature| #[trigger] marks_in_value(g, root) == entry_marks(g, key, value) by {
        lemma_scalars_mark_nothing(g, value->Array_0@);
        assert(es.last() == es[0]);
        assert(!marks_in_entries(g, es.drop_last()));
        assert(marks_in_value(g, value) == marks_in_items(g, value->Array_0@));
        assert(marks_in_value(g, root) == marks_in_entries(g, es));
    }
    if eq_ignore_ascii_case(key, "outlines"@) {
        lemma_only_feature(root, StrictFeature::Outlines);
    } else if eq_ignore_ascii_case(key, "pagelabels"@) || eq_ignore_ascii_case(key, "page_labels"@) {
        lemma_only_feature(root, StrictFeature::PageLabels);
    } else {
        lemma_no_feature(root);
    }
}

/// An empty array or object reveals nothing, whatever its key: a document
/// whose only entry holds one is clean.
pub proof fn lemma_empty_entry_clean(root: JsonValue, value: JsonValue)
    requires
        root is Object,
        root->Object_0@.len() == 1,
        root->Object_0@[0].1 == value,
        (value matches JsonValue::Array(a) && a@.len() == 0) || (value matches JsonValue::Object(o) && o@.len() == 0),
    ensures
        spec_features(root) == Seq::<StrictFeature>::empty(),
{
    let es = root->Object_0@;
    assert(es.drop_last() =~= Seq::<(String, JsonValue)>::empty());
    assert forall|g: StrictFeature| !#[trigger] marks_in_value(g, root) by {
        assert(es.last() == es[0]);
        assert(!marks_in_entries(g, es.drop_last()));
        assert(marks_in_value(g, root) == marks_in_entries(g, es));
        match value {
            JsonValue::Object(o) => {
                assert(object_get(o@, "hasacroform"@) is None);
                assert(object_get(o@, "fields"@) is None);
                assert(object_get(o@, "encrypted"@) is None);
                assert(!marks_in_entries(g, o@));
            },
            JsonValue::Array(a) => {
                assert(!marks_in_items(g, a@));
            },
            _ => {},
        }
        assert(!entry_marks(g, es[0].0@, value));
        assert(!marks_in_value(g, value));
    }
    lemma_no_feature(root);
}

} // verus!
