use json_validator::json::{Json, Number};
use json_validator::validate::{validate, DocumentReport, EvidenceState, ListingReport};
use serde_json::Value;

fn to_json(value: Value) -> Json {
    match value {
        Value::Null => Json::Null,
        Value::Bool(b) => Json::Bool(b),
        Value::Number(n) => Json::Number(if let Some(u) = n.as_u64() {
            Number::Unsigned(u)
        } else if let Some(i) = n.as_i64() {
            Number::Negative(i)
        } else {
            Number::Float
        }),
        Value::String(s) => Json::String(s),
        Value::Array(items) => Json::Array(items.into_iter().map(to_json).collect()),
        Value::Object(members) => {
            Json::Object(members.into_iter().map(|(k, v)| (k, to_json(v))).collect())
        }
    }
}

fn parse(text: &str) -> Value {
    serde_json::from_str(text).unwrap()
}

fn check(value: Value) -> DocumentReport {
    validate(&to_json(value))
}

fn confirmed_listing() -> Value {
    parse(
        r#"{
            "id": "DEMO-001",
            "property_type": "House",
            "location": "Tavira",
            "asking_price": 250000,
            "advertising_permission": {"granted": true, "source": "fictional-permission"}
        }"#,
    )
}

fn report_for(listing: Value) -> ListingReport {
    check(Value::Array(vec![listing])).listings.remove(0)
}

const LISTINGS: &str = r#"[
  {"id": "DEMO-VALID-001", "property_type": "Apartment", "location": "Tavira", "asking_price": 245000,
   "advertising_permission": {"granted": true, "source": "fictional-permission"}},
  {"id": "DEMO-VALID-002", "property_type": "House", "location": "Faro", "asking_price": 410000,
   "advertising_permission": {"granted": true, "source": "fictional-permission"}},
  {"id": "DEMO-REFUSED-003", "property_type": "Land", "location": "Lagos", "asking_price": 90000,
   "advertising_permission": {"granted": false, "source": "fictional-refusal"}},
  {"id": "DEMO-UNKNOWN-004", "property_type": "House", "location": "Olhao", "asking_price": 300000,
   "advertising_permission": null},
  {"id": "DEMO-UNKNOWN-005", "property_type": "Apartment", "location": "Loule", "asking_price": 180000},
  {"id": "DEMO-UNKNOWN-006", "property_type": "Land", "location": "Silves", "asking_price": 70000,
   "advertising_permission": {"granted": true}},
  {"id": "DEMO-UNKNOWN-007", "property_type": "House", "location": "Tavira", "asking_price": 520000,
   "advertising_permission": {"source": "fictional-permission"}},
  {"id": "DEMO-UNKNOWN-008", "property_type": "Apartment", "location": "Faro", "asking_price": 150000,
   "advertising_permission": {"granted": false, "source": " "}}
]"#;

const INVALID_LISTINGS: &str = r#"[
  {"id": "DEMO-BAD-001", "property_type": "House", "location": "Tavira", "asking_price": 0,
   "advertising_permission": {"granted": true, "source": "fictional-permission"}},
  {"id": "DEMO-BAD-002", "property_type": "House", "location": "Tavira", "asking_price": "250000",
   "advertising_permission": {"granted": true, "source": "fictional-permission"}},
  {"id": "DEMO-BAD-003", "property_type": "Castle", "location": "Tavira", "asking_price": 250000,
   "advertising_permission": {"granted": true, "source": "fictional-permission"}},
  {"id": "DEMO-BAD-004", "location": "Tavira", "asking_price": 250000,
   "advertising_permission": {"granted": true, "source": "fictional-permission"}},
  {"id": "DEMO-BAD-005", "property_type": "House", "location": "  ", "asking_price": 250000,
   "advertising_permission": {"granted": true, "source": "fictional-permission"}},
  {"id": "DEMO-BAD-006", "property_type": "House", "location": "Tavira", "asking_price": 250000,
   "advertising_permission": {"granted": "yes", "source": "fictional-permission"}},
  {"id": "DEMO-BAD-007", "property_type": "House", "location": "Tavira", "asking_price": 250000,
   "advertising_permission": {"granted": true, "source": 7}},
  {"id": "DEMO-BAD-008", "property_type": "House", "location": "Tavira", "asking_price": -5,
   "advertising_permission": {"granted": true, "source": "fictional-permission"}}
]"#;

#[test]
fn sample_has_two_confirmed_one_rejected_and_five_unknown() {
    let report = check(parse(LISTINGS));
    let states: Vec<_> = report.listings.iter().map(|item| item.evidence).collect();
    assert_eq!(
        states,
        vec![
            Some(EvidenceState::Confirmed),
            Some(EvidenceState::Confirmed),
            Some(EvidenceState::Rejected),
            Some(EvidenceState::Unknown),
            Some(EvidenceState::Unknown),
            Some(EvidenceState::Unknown),
            Some(EvidenceState::Unknown),
            Some(EvidenceState::Unknown),
        ]
    );
    assert!(report.issues.is_empty());
    assert!(report.listings.iter().all(|item| item.issues.is_empty()));
    assert!(!report.passed());
}

#[test]
fn every_invalid_fixture_record_reports_the_expected_field() {
    let report = check(parse(INVALID_LISTINGS));
    let fields = [
        "asking_price",
        "asking_price",
        "property_type",
        "property_type",
        "location",
        "advertising_permission/granted",
        "advertising_permission/source",
        "asking_price",
    ];
    assert_eq!(report.listings.len(), fields.len());
    for (listing, field) in report.listings.iter().zip(fields) {
        assert_eq!(listing.issues.len(), 1);
        assert_eq!(listing.issues[0].path, format!("/{}/{field}", listing.index));
        assert_eq!(listing.evidence, None);
        assert!(!listing.passed());
    }
    assert!(!report.passed());
}

#[test]
fn only_a_nonempty_document_of_valid_confirmed_listings_passes() {
    assert!(report_for(confirmed_listing()).passed());
    assert!(check(Value::Array(vec![confirmed_listing()])).passed());
    for text in ["[]", "{}", "null", "false", "3", "\"text\""] {
        let report = check(parse(text));
        assert!(!report.passed());
        assert_eq!(report.issues.len(), 1);
        assert_eq!(report.issues[0].path, "");
        assert!(report.listings.is_empty());
    }
}

#[test]
fn invalid_records_do_not_stop_later_records_being_validated() {
    let mut items = vec![parse("null"), parse("[]"), parse("5")];
    items.push(confirmed_listing());
    let report = check(Value::Array(items));
    assert_eq!(report.listings.len(), 4);
    for (index, listing) in report.listings[..3].iter().enumerate() {
        assert_eq!(listing.issues[0].path, format!("/{index}"));
        assert_eq!(listing.evidence, None);
    }
    assert!(report.listings[3].passed());
    assert!(!report.passed());
}

#[test]
fn duplicate_ids_invalidate_every_occurrence_after_trimming() {
    let a = confirmed_listing();
    let mut b = confirmed_listing();
    b["id"] = Value::String(" DEMO-001 ".to_string());
    let mut c = confirmed_listing();
    c["id"] = Value::String("DEMO-002".to_string());
    let report = check(Value::Array(vec![a, b, c]));
    for (index, listing) in report.listings[..2].iter().enumerate() {
        assert_eq!(listing.evidence, None);
        assert_eq!(listing.issues[0].path, format!("/{index}/id"));
        assert!(listing.issues[0].message.contains("Duplicate"));
    }
    assert!(report.listings[2].passed());
}

#[test]
fn collects_all_required_field_errors_in_a_stable_order() {
    let report = report_for(parse("{}"));
    let paths: Vec<_> = report.issues.iter().map(|issue| issue.path.as_str()).collect();
    assert_eq!(paths, ["/0/id", "/0/property_type", "/0/location", "/0/asking_price"]);
    assert_eq!(report.evidence, None);
}

#[test]
fn required_text_rejects_blank_and_nonstring_values() {
    for field in ["id", "location"] {
        for text in ["null", "\" \\t\\n\"", "12", "true", "[]", "{}"] {
            let mut listing = confirmed_listing();
            listing[field] = parse(text);
            let report = report_for(listing);
            assert_eq!(report.issues[0].path, format!("/0/{field}"));
            assert_eq!(report.evidence, None);
        }
    }
}

#[test]
fn property_types_are_an_exact_closed_set() {
    for text in ["\"Apartment\"", "\"House\"", "\"Land\""] {
        let mut listing = confirmed_listing();
        listing["property_type"] = parse(text);
        assert!(report_for(listing).passed());
    }
    for text in ["\"house\"", "\" House \"", "\"Castle\"", "null", "1"] {
        let mut listing = confirmed_listing();
        listing["property_type"] = parse(text);
        assert_eq!(report_for(listing).issues[0].path, "/0/property_type");
    }
}

#[test]
fn price_requires_a_positive_u64_integer() {
    for value in [Value::from(1u64), Value::from(u64::MAX)] {
        let mut listing = confirmed_listing();
        listing["asking_price"] = value;
        assert!(report_for(listing).passed());
    }
    for value in [
        Value::from(0),
        Value::from(-1),
        Value::from(1.0),
        Value::from(1.5),
        Value::from(1e30),
        Value::from("1"),
        Value::Null,
        Value::Bool(true),
    ] {
        let mut listing = confirmed_listing();
        listing["asking_price"] = value;
        let report = report_for(listing);
        assert_eq!(report.issues[0].path, "/0/asking_price");
        assert_eq!(report.evidence, None);
    }
}

#[test]
fn parsed_price_tokens_preserve_integer_limits_and_reject_float_forms() {
    let mut listing = confirmed_listing();
    listing["asking_price"] = serde_json::from_str("18446744073709551615").unwrap();
    assert!(report_for(listing.clone()).passed());

    for token in ["18446744073709551616", "18446744073709551615.0", "1.0", "1e0"] {
        listing["asking_price"] = serde_json::from_str(token).unwrap();
        let report = report_for(listing.clone());
        assert_eq!(report.issues[0].path, "/0/asking_price", "token: {token}");
        assert_eq!(report.evidence, None);
    }
}

#[test]
fn missing_evidence_never_confirms_or_rejects_permission() {
    for text in [
        "null",
        "{}",
        r#"{"source": "ref"}"#,
        r#"{"granted": null, "source": "ref"}"#,
        r#"{"granted": true}"#,
        r#"{"granted": false}"#,
        r#"{"granted": true, "source": " "}"#,
        r#"{"granted": false, "source": null}"#,
    ] {
        let mut listing = confirmed_listing();
        listing["advertising_permission"] = parse(text);
        let report = report_for(listing);
        assert!(report.issues.is_empty());
        assert_eq!(report.evidence, Some(EvidenceState::Unknown));
        assert!(!report.passed());
    }
    let mut listing = confirmed_listing();
    listing.as_object_mut().unwrap().remove("advertising_permission");
    assert_eq!(report_for(listing).evidence, Some(EvidenceState::Unknown));
}

#[test]
fn explicit_refusal_with_a_source_is_rejected() {
    let mut listing = confirmed_listing();
    listing["advertising_permission"]["granted"] = Value::Bool(false);
    let report = report_for(listing);
    assert!(report.issues.is_empty());
    assert_eq!(report.evidence, Some(EvidenceState::Rejected));
    assert!(!report.passed());
}

#[test]
fn permission_types_are_validated_without_coercion() {
    for text in ["true", "\"yes\"", "[]", "1"] {
        let mut listing = confirmed_listing();
        listing["advertising_permission"] = parse(text);
        let report = report_for(listing);
        assert_eq!(report.issues[0].path, "/0/advertising_permission");
        assert_eq!(report.evidence, None);
    }
    let mut listing = confirmed_listing();
    listing["advertising_permission"] = parse(r#"{"granted": "true", "source": 12}"#);
    let report = report_for(listing);
    assert_eq!(report.issues.len(), 2);
    assert_eq!(report.issues[0].path, "/0/advertising_permission/granted");
    assert_eq!(report.issues[1].path, "/0/advertising_permission/source");
    assert_eq!(report.evidence, None);
}

#[test]
fn unsupported_evidence_metadata_cannot_produce_a_confirmed_result() {
    let mut listing = confirmed_listing();
    listing["advertising_permission"]["expired"] = Value::Bool(true);
    listing["conditional"] = Value::Bool(true);
    let report = report_for(listing);
    assert_eq!(report.issues.len(), 2);
    assert_eq!(report.issues[0].path, "/0/advertising_permission/expired");
    assert_eq!(report.issues[1].path, "/0/conditional");
    assert_eq!(report.evidence, None);
    assert!(!report.passed());
}

#[test]
fn unknown_field_paths_escape_json_pointer_characters() {
    let mut listing = confirmed_listing();
    listing["extra~/field"] = Value::Bool(true);
    assert_eq!(report_for(listing).issues[0].path, "/0/extra~0~1field");
}
