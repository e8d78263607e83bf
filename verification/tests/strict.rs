use nata::error::AppError;
use nata::strict::{strict_result, JsonValue, StrictFeature, StrictInspection};

#[test]
fn detects_outlines() {
    let json = br#"{"outlines":{"first":"1 0 R"}}"#;
    let inspection = StrictInspection::from_qpdf_json_reader(&json[..]).expect("json should parse");
    assert_eq!(inspection.features(), &[StrictFeature::Outlines]);
}

#[test]
fn detects_struct_tree_and_tagged_flag() {
    let json = br#"{"tagged":true,"qpdf":[{"jsonversion":2}]}"#;
    let inspection = StrictInspection::from_qpdf_json_reader(&json[..]).expect("json should parse");
    assert_eq!(inspection.features(), &[StrictFeature::StructTree]);
}

#[test]
fn detects_acroform_and_page_labels() {
    let json = br#"{"acroform":{"fields":[1]},"pagelabels":{"nums":[0]}}"#;
    let inspection = StrictInspection::from_qpdf_json_reader(&json[..]).expect("json should parse");
    assert_eq!(inspection.features(), &[StrictFeature::AcroForm, StrictFeature::PageLabels]);
}

#[test]
fn detects_names_and_attachments() {
    let json = br#"{"names":{"EmbeddedFiles":{"Kids":[1]}},"attachments":{"items":[1]}}"#;
    let inspection = StrictInspection::from_qpdf_json_reader(&json[..]).expect("json should parse");
    assert_eq!(inspection.features(), &[StrictFeature::Names, StrictFeature::Attachments]);
}

#[test]
fn detects_encryption() {
    let json = br#"{"encrypt":{"encrypted":true}}"#;
    let inspection = StrictInspection::from_qpdf_json_reader(&json[..]).expect("json should parse");
    assert_eq!(inspection.features(), &[StrictFeature::Encrypted]);
}

#[test]
fn clean_document_has_no_violations() {
    let json = br#"{"pages":[{"object":"3 0 R"}],"pdfversion":"1.7"}"#;
    let inspection = StrictInspection::from_qpdf_json_reader(&json[..]).expect("json should parse");
    assert!(inspection.is_clean());
}

#[test]
fn handles_multiple_matches() {
    let json = br#"{"names":{"EmbeddedFiles":{"items":[1]}},"embeddedfiles":{"root":1},"tagged":true}"#;
    let inspection = StrictInspection::from_qpdf_json_reader(&json[..]).expect("json should parse");
    assert_eq!(
        inspection.features(),
        &[StrictFeature::StructTree, StrictFeature::Names, StrictFeature::Attachments]
    );
}

#[test]
fn ignores_empty_or_false_top_level_sections() {
    let json = br#"{
        "acroform": {"fields": [], "hasacroform": false, "needappearances": false},
        "attachments": {},
        "encrypt": {"encrypted": false},
        "outlines": [],
        "pagelabels": []
    }"#;
    let inspection = StrictInspection::from_qpdf_json_reader(&json[..]).expect("json should parse");
    assert!(inspection.is_clean());
}

#[test]
fn detects_struct_tree_root_reference() {
    let json = br#"{
        "objects": {
            "obj:19 0 R": {
                "value": {
                    "/StructTreeRoot": "18 0 R",
                    "/Type": "/Catalog"
                }
            }
        }
    }"#;
    let inspection = StrictInspection::from_qpdf_json_reader(&json[..]).expect("json should parse");
    assert_eq!(inspection.features(), &[StrictFeature::StructTree]);
}

#[test]
fn malformed_json_is_reported() {
    let error = StrictInspection::from_qpdf_json_reader(b"{not json").expect_err("json should fail");
    assert!(error.starts_with("unexpected qpdf --json output: "));
    assert!(error.len() > "unexpected qpdf --json output: ".len());
}

#[test]
fn features_found_in_nested_values_are_reported_once_in_order() {
    let json = br#"{"encrypt":{"encrypted":true},"outlines":[1],"objects":{"a":{"/Outlines":"3 0 R"}}}"#;
    let inspection = StrictInspection::from_qpdf_json_reader(&json[..]).expect("json should parse");
    assert_eq!(inspection.features(), &[StrictFeature::Outlines, StrictFeature::Encrypted]);
}

#[test]
fn inspection_of_a_built_value() {
    let root = JsonValue::Object(vec![("tagged".to_owned(), JsonValue::Bool(true))]);
    let inspection = StrictInspection::from_json_value(&root);
    assert_eq!(inspection.features(), &[StrictFeature::StructTree]);
}

#[test]
fn violation_names_every_feature() {
    let json = br#"{"acroform":{"fields":[1]},"pagelabels":{"nums":[0]}}"#;
    let inspection = StrictInspection::from_qpdf_json_reader(&json[..]).expect("json should parse");
    match strict_result("in.pdf", &inspection) {
        Err(AppError::StrictViolation { path, detail }) => {
            assert_eq!(path, "in.pdf");
            assert_eq!(detail, "AcroForm/forms, page labels");
        }
        other => panic!("unexpected result: {other:?}"),
    }
    let clean = StrictInspection::from_qpdf_json_reader(b"{}").expect("json should parse");
    assert!(strict_result("in.pdf", &clean).is_ok());
}

#[test]
fn feature_descriptions() {
    assert_eq!(StrictFeature::Outlines.description(), "outlines/bookmarks");
    assert_eq!(StrictFeature::Encrypted.description(), "encryption/password protection");
}
