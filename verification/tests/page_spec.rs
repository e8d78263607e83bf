use nata::error::AppError;
use nata::page_spec::{PageSpec, PageSpecRules};

#[test]
fn accepts_supported_tokens() {
    for input in ["1", "1-5", "1,3,5-8", "all", "last", "odd", "even", "4-last"] {
        PageSpec::parse(input).expect("page spec should parse");
    }
}

#[test]
fn rejects_invalid_tokens() {
    for input in ["", "0", "-1", "5-1", "last-4", "last-1", "abc", "1,,2"] {
        assert!(matches!(PageSpec::parse(input), Err(AppError::InvalidPageSpec(_))));
    }
}

#[test]
fn resolves_ranges_in_order_and_keeps_duplicates() {
    let spec = PageSpec::parse("3,1,2,2,4-last").expect("spec should parse");
    let pages = spec.resolve(5).expect("spec should resolve");
    assert_eq!(pages, vec![3, 1, 2, 2, 4, 5]);
}

#[test]
fn resolves_special_tokens() {
    let all = PageSpec::parse("all").expect("spec should parse");
    assert_eq!(all.resolve(4).expect("all should resolve"), vec![1, 2, 3, 4]);

    let odd = PageSpec::parse("odd").expect("spec should parse");
    assert_eq!(odd.resolve(6).expect("odd should resolve"), vec![1, 3, 5]);

    let even = PageSpec::parse("even").expect("spec should parse");
    assert_eq!(even.resolve(6).expect("even should resolve"), vec![2, 4, 6]);

    let last = PageSpec::parse("last").expect("spec should parse");
    assert_eq!(last.resolve(6).expect("last should resolve"), vec![6]);
}

#[test]
fn rejects_out_of_range_pages_on_resolution() {
    let spec = PageSpec::parse("4-last").expect("spec should parse");
    assert!(matches!(
        spec.resolve(3),
        Err(AppError::PageOutOfRange {
            page: 4,
            total_pages: 3
        })
    ));
}

#[test]
fn rules_can_reject_odd_even() {
    let spec = PageSpec::parse("odd").expect("spec should parse");
    assert!(matches!(
        spec.validate_rules(5, PageSpecRules::default()),
        Err(AppError::OddEvenNotAllowed)
    ));
}

#[test]
fn rules_can_require_single_page() {
    let spec = PageSpec::parse("1-2").expect("spec should parse");
    assert!(matches!(
        spec.validate_rules(
            5,
            PageSpecRules {
                allow_odd_even: true,
                require_single_page: true,
                allow_empty_result: false,
            }
        ),
        Err(AppError::SinglePageRequired)
    ));
}

#[test]
fn converts_to_compact_qpdf_ranges() {
    let spec = PageSpec::parse("1-3,last,odd,even,4-last").expect("spec should parse");
    assert_eq!(spec.to_qpdf_range(), "1-3,z,1-z:odd,1-z:even,4-z");
}

#[test]
fn empty_specification_reports_its_message() {
    match PageSpec::parse("   ") {
        Err(AppError::InvalidPageSpec(message)) => assert_eq!(message, "page specification is empty"),
        other => panic!("unexpected result: {other:?}"),
    }
}

#[test]
fn whitespace_around_tokens_is_ignored() {
    let spec = PageSpec::parse(" 1 , 3 - 4 ").expect("spec should parse");
    assert_eq!(spec.resolve(5).expect("spec should resolve"), vec![1, 3, 4]);
    assert_eq!(spec.to_qpdf_range(), "1,3-4");
}

#[test]
fn resolution_of_a_concatenation_is_the_concatenation_of_resolutions() {
    let left = PageSpec::parse("2-3,last").expect("spec should parse");
    let right = PageSpec::parse("odd").expect("spec should parse");
    let both = PageSpec::parse("2-3,last,odd").expect("spec should parse");
    let mut expected = left.resolve(5).expect("left should resolve");
    expected.extend(right.resolve(5).expect("right should resolve"));
    assert_eq!(both.resolve(5).expect("both should resolve"), expected);
}

#[test]
fn zero_page_document_rejects_every_page() {
    let spec = PageSpec::parse("1").expect("spec should parse");
    assert!(matches!(
        spec.resolve(0),
        Err(AppError::PageOutOfRange { page: 1, total_pages: 0 })
    ));
}

#[test]
fn empty_selection_is_refused_unless_allowed() {
    let spec = PageSpec::parse("even").expect("spec should parse");
    let rules = PageSpecRules {
        allow_odd_even: true,
        require_single_page: false,
        allow_empty_result: false,
    };
    assert!(matches!(spec.validate_rules(1, rules), Err(AppError::EmptyPageSelection)));
    let lenient = PageSpecRules {
        allow_odd_even: true,
        require_single_page: false,
        allow_empty_result: true,
    };
    assert_eq!(spec.validate_rules(1, lenient).expect("empty allowed"), Vec::<u32>::new());
}

#[test]
fn reversed_range_is_refused_on_parse() {
    match PageSpec::parse("5-1") {
        Err(AppError::InvalidPageSpec(message)) => assert_eq!(message, "5-1"),
        other => panic!("unexpected result: {other:?}"),
    }
}

#[test]
fn page_spec_parses_through_from_str() {
    let spec: PageSpec = "1,last".parse().expect("spec should parse");
    assert_eq!(spec.resolve(3).expect("spec should resolve"), vec![1, 3]);
}

#[test]
fn empty_token_and_bad_number_report_their_messages() {
    match PageSpec::parse("1,,2") {
        Err(AppError::InvalidPageSpec(message)) => assert_eq!(message, "empty page token"),
        other => panic!("unexpected result: {other:?}"),
    }
    match PageSpec::parse("2,x7") {
        Err(AppError::InvalidPageSpec(message)) => assert_eq!(message, "x7"),
        other => panic!("unexpected result: {other:?}"),
    }
}
