use json_validator::cli::{
    check_file_size, parse_arguments, select_json_files, Command, DirEntryInfo, Format,
};
use json_validator::json::{Json, MemberNames, Number};
use json_validator::report::{exit_code, write_text, summarize, FileReport, InputError};
use json_validator::validate::{validate, EvidenceState};
use serde_json::Value;

fn text_report(files: &[FileReport]) -> String {
    let mut text = String::new();
    write_text(&mut text, files);
    text
}

fn to_json(value: Value) -> Json {
    match value {
        Value::Null => Json::Null,
        Value::Bool(b) => Json::Bool(b),
        Value::Number(n) => Json::Number(if let Some(u) = n.as_u64() {
            Number::Unsigned(u)
        } else if let Some(i) = n.as_i64() {
            Number::Negative(i)
        } else {
            Number::Float
        }),
        Value::String(s) => Json::String(s),
        Value::Array(items) => Json::Array(items.into_iter().map(to_json).collect()),
        Value::Object(members) => {
            Json::Object(members.into_iter().map(|(k, v)| (k, to_json(v))).collect())
        }
    }
}

fn valid_listing(id: &str) -> String {
    format!(
        r#"{{"id": "{id}", "property_type": "Apartment", "location": "Tavira", "asking_price": 245000,
            "advertising_permission": {{"granted": true, "source": "fictional-permission"}}}}"#
    )
}

/// The report for a file holding `text`, as the program builds it.
fn file_report(path: &str, text: &str) -> FileReport {
    let result = match serde_json::from_str::<Value>(text) {
        Ok(value) => Ok(validate(&to_json(value))),
        Err(error) => Err(InputError::parse(error)),
    };
    FileReport { path: path.to_string(), result }
}

fn entry(name: &str, is_file: bool) -> DirEntryInfo {
    DirEntryInfo { name: name.as_bytes().to_vec(), is_file }
}

fn args(words: &[&str]) -> Vec<Option<String>> {
    words.iter().map(|w| Some(w.to_string())).collect()
}

const LISTINGS: &str = r#"[
  {"id": "DEMO-VALID-001", "property_type": "Apartment", "location": "Tavira", "asking_price": 245000,
   "advertising_permission": {"granted": true, "source": "fictional-permission"}},
  {"id": "DEMO-VALID-002", "property_type": "House", "location": "Faro", "asking_price": 410000,
   "advertising_permission": {"granted": true, "source": "fictional-permission"}},
  {"id": "DEMO-REFUSED-003", "property_type": "Land", "location": "Lagos", "asking_price": 90000,
   "advertising_permission": {"granted": false, "source": "fictional-refusal"}},
  {"id": "DEMO-UNKNOWN-004", "property_type": "House", "location": "Olhao", "asking_price": 300000,
   "advertising_permission": null},
  {"id": "DEMO-UNKNOWN-005", "property_type": "Apartment", "location": "Loule", "asking_price": 180000},
  {"id": "DEMO-UNKNOWN-006", "property_type": "Land", "location": "Silves", "asking_price": 70000,
   "advertising_permission": {"granted": true}},
  {"id": "DEMO-UNKNOWN-007", "property_type": "House", "location": "Tavira", "asking_price": 520000,
   "advertising_permission": {"source": "fictional-permission"}},
  {"id": "DEMO-UNKNOWN-008", "property_type": "Apartment", "location": "Faro", "asking_price": 150000,
   "advertising_permission": {"granted": false, "source": " "}}
]"#;

const INVALID_LISTINGS: &str = r#"[
  {"id": "DEMO-BAD-001", "property_type": "House", "location": "Tavira", "asking_price": 0,
   "advertising_permission": {"granted": true, "source": "fictional-permission"}},
  {"id": "DEMO-BAD-002", "property_type": "House", "location": "Tavira", "asking_price": "250000",
   "advertising_permission": {"granted": true, "source": "fictional-permission"}},
  {"id": "DEMO-BAD-003", "property_type": "Castle", "location": "Tavira", "asking_price": 250000,
   "advertising_permission": {"granted": true, "source": "fictional-permission"}},
  {"id": "DEMO-BAD-004", "location": "Tavira", "asking_price": 250000,
   "advertising_permission": {"granted": true, "source": "fictional-permission"}},
  {"id": "DEMO-BAD-005", "property_type": "House", "location": "  ", "asking_price": 250000,
   "advertising_permission": {"granted": true, "source": "fictional-permission"}},
  {"id": "DEMO-BAD-006", "property_type": "House", "location": "Tavira", "asking_price": 250000,
   "advertising_permission": {"granted": "yes", "source": "fictional-permission"}},
  {"id": "DEMO-BAD-007", "property_type": "House", "location": "Tavira", "asking_price": 250000,
   "advertising_permission": {"granted": true, "source": 7}},
  {"id": "DEMO-BAD-008", "property_type": "House", "location": "Tavira", "asking_price": -5,
   "advertising_permission": {"granted": true, "source": "fictional-permission"}}
]"#;

#[test]
fn confirmed_listing_passes_with_machine_readable_report() {
    let files = vec![file_report("valid.json", &format!("[{}]", valid_listing("DEMO-001")))];
    assert_eq!(exit_code(&files), 0);
    let summary = summarize(&files);
    assert_eq!(files.len(), 1);
    assert_eq!(summary.listings, 1);
    assert_eq!(summary.passed, 1);
    assert_eq!(summary.confirmed, 1);
    assert_eq!(summary.invalid, 0);
    assert_eq!(summary.file_errors, 0);

    assert!(files[0].path.ends_with("valid.json"));
    let document = files[0].result.as_ref().ok().unwrap();
    assert!(document.issues.is_empty());
    let listing = &document.listings[0];
    assert_eq!(listing.index, 0);
    assert_eq!(listing.id.as_deref(), Some("DEMO-001"));
    assert!(listing.issues.is_empty());
    assert!(listing.passed());
    assert_eq!(listing.evidence.map(EvidenceState::as_str), Some("Confirmed"));
    assert!(!listing.reason.is_empty());
}

#[test]
fn mixed_fixture_preserves_rejected_and_unknown_evidence() {
    let files = vec![file_report("listings.json", LISTINGS)];
    assert_eq!(exit_code(&files), 1);
    let summary = summarize(&files);
    assert_eq!(summary.listings, 8);
    assert_eq!(summary.passed, 2);
    assert_eq!(summary.invalid, 0);
    assert_eq!(summary.confirmed, 2);
    assert_eq!(summary.rejected, 1);
    assert_eq!(summary.unknown, 5);
    let listings = &files[0].result.as_ref().ok().unwrap().listings;
    assert_eq!(listings[2].evidence, Some(EvidenceState::Rejected));
    assert_eq!(listings[6].evidence, Some(EvidenceState::Unknown));
    assert_eq!(listings[7].evidence, Some(EvidenceState::Unknown));
    assert!(listings.iter().all(|listing| listing.issues.is_empty()));
    assert!(listings[2..].iter().all(|listing| !listing.passed()));
}

#[test]
fn invalid_fixture_reports_every_record_without_classifying_evidence() {
    let files = vec![file_report("invalid-listings.json", INVALID_LISTINGS)];
    assert_eq!(exit_code(&files), 1);
    let summary = summarize(&files);
    assert_eq!(summary.listings, 8);
    assert_eq!(summary.invalid, 8);
    assert_eq!(summary.passed, 0);
    let listings = &files[0].result.as_ref().ok().unwrap().listings;
    assert_eq!(listings.len(), 8);
    for (index, listing) in listings.iter().enumerate() {
        assert_eq!(listing.index, index);
        assert!(!listing.issues.is_empty());
        assert!(!listing.passed());
        assert!(listing.evidence.is_none());
        for issue in &listing.issues {
            assert!(!issue.path.is_empty());
            assert!(!issue.message.is_empty());
        }
    }
}

#[test]
fn malformed_json_reports_parse_location() {
    let files = vec![file_report("malformed.json", "[ malformed")];
    assert_eq!(exit_code(&files), 1);
    let summary = summarize(&files);
    assert_eq!(summary.file_errors, 1);
    assert_eq!(summary.listings, 0);
    let error = files[0].result.as_ref().err().unwrap();
    assert_eq!(error.kind, "parse");
    assert!(!error.message.is_empty());
    assert!(error.line.unwrap() > 0);
    assert!(error.column.unwrap() > 0);
    let parsed = serde_json::from_str::<Value>("[ malformed").unwrap_err();
    assert_eq!(error.message, parsed.to_string());
    assert_eq!((error.line, error.column), (Some(parsed.line()), Some(parsed.column())));
}

#[test]
fn duplicate_object_keys_cannot_override_a_refused_permission() {
    // The parser records each member name with `MemberNames` and refuses the document at the
    // first name that was recorded before.
    let mut names = MemberNames::new();
    assert!(names.add("granted"));
    assert!(!names.add("granted"));
    assert!(names.add("source"));
    let error = <serde_json::Error as serde::de::Error>::custom("duplicate object key: \"granted\"");
    let files = vec![FileReport {
        path: "duplicate-keys.json".to_string(),
        result: Err(InputError::parse(error)),
    }];
    assert_eq!(exit_code(&files), 1);
    assert_eq!(summarize(&files).passed, 0);
    assert_eq!(files[0].result.as_ref().err().unwrap().kind, "parse");
}

#[test]
fn file_exceeding_size_limit_is_rejected_before_parsing() {
    let error = check_file_size(10 * 1024 * 1024 + 1).err().unwrap();
    assert!(check_file_size(10 * 1024 * 1024).is_ok());
    let files = vec![FileReport { path: "oversized.json".to_string(), result: Err(error) }];
    assert_eq!(exit_code(&files), 1);
    assert_eq!(files[0].result.as_ref().err().unwrap().kind, "input");
    let summary = summarize(&files);
    assert_eq!(summary.file_errors, 1);
    assert_eq!(summary.listings, 0);
}

#[test]
fn missing_input_has_an_operational_exit_code_and_json_error() {
    let error = std::io::Error::from(std::io::ErrorKind::NotFound);
    let files = vec![FileReport { path: "missing.json".to_string(), result: Err(InputError::io(error)) }];
    assert_eq!(exit_code(&files), 2);
    assert_eq!(summarize(&files).file_errors, 1);
    assert_eq!(files[0].result.as_ref().err().unwrap().kind, "io");
}

#[test]
fn empty_directory_is_an_operational_error() {
    let message = select_json_files(&Vec::new()).err().unwrap();
    let error = std::io::Error::new(std::io::ErrorKind::NotFound, message);
    let files = vec![FileReport { path: "empty".to_string(), result: Err(InputError::io(error)) }];
    assert_eq!(exit_code(&files), 2);
    let summary = summarize(&files);
    assert_eq!(summary.listings, 0);
    assert_eq!(summary.file_errors, 1);
}

#[test]
fn directory_is_sorted_nonrecursive_and_continues_after_parse_failure() {
    let entries = vec![
        entry("z-last.JSON", true),
        entry("a-first.json", true),
        entry("ignored.txt", true),
        entry("nested", false),
    ];
    let chosen = select_json_files(&entries).ok().unwrap();
    assert_eq!(chosen, vec![1, 0]);
    let files = vec![
        file_report("a-first.json", "[ malformed"),
        file_report("z-last.JSON", &format!("[{}]", valid_listing("DEMO-001"))),
    ];
    assert_eq!(files.len(), 2);
    assert_eq!(files[0].result.as_ref().err().unwrap().kind, "parse");
    assert!(files[1].result.as_ref().ok().unwrap().listings[0].passed());
    let summary = summarize(&files);
    assert_eq!(summary.listings, 1);
    assert_eq!(summary.passed, 1);
    assert_eq!(summary.file_errors, 1);
    assert_eq!(exit_code(&files), 1);
}

#[test]
fn json_in_subdirectory_does_not_make_parent_nonempty() {
    assert!(select_json_files(&vec![entry("nested", false)]).is_err());
}

#[test]
fn directory_scan_excludes_symbolic_links() {
    let entries = vec![entry("target.txt", true), entry("linked.json", false)];
    assert!(select_json_files(&entries).is_err());
}

#[test]
fn invalid_document_roots_and_empty_arrays_fail_validation() {
    for (name, contents) in [("object.json", "{}"), ("scalar.json", "42"), ("empty.json", "[]")] {
        let files = vec![file_report(name, contents)];
        assert_eq!(exit_code(&files), 1);
        assert_eq!(summarize(&files).listings, 0);
        assert!(!files[0].result.as_ref().ok().unwrap().issues.is_empty());
    }
}

#[test]
fn nonobject_records_fail_without_hiding_other_records() {
    let files = vec![file_report("records.json", &format!("[null, {}]", valid_listing("DEMO-001")))];
    let summary = summarize(&files);
    assert_eq!(summary.listings, 2);
    assert_eq!(summary.invalid, 1);
    assert_eq!(summary.passed, 1);
    let records = &files[0].result.as_ref().ok().unwrap().listings;
    assert_eq!(records[0].index, 0);
    assert!(records[0].id.is_none());
    assert!(!records[0].issues.is_empty());
    assert!(records[0].evidence.is_none());
    assert_eq!(records[1].index, 1);
    assert!(records[1].passed());
}

#[test]
fn duplicate_ids_cannot_produce_a_passing_report() {
    let record = valid_listing("DUPLICATE");
    let files = vec![file_report("duplicates.json", &format!("[{record}, {record}]"))];
    assert_eq!(exit_code(&files), 1);
    assert!(summarize(&files).invalid > 0);
    let records = &files[0].result.as_ref().ok().unwrap().listings;
    assert!(records
        .iter()
        .any(|record| record.issues.iter().any(|issue| issue.path.ends_with("id"))));
}

#[test]
fn help_and_version_succeed_without_an_input() {
    assert_eq!(parse_arguments(&args(&["--help"])), Ok(Command::Help));
    assert_eq!(parse_arguments(&args(&["-h"])), Ok(Command::Help));
    assert_eq!(parse_arguments(&args(&["--version"])), Ok(Command::Version));
    assert_eq!(parse_arguments(&args(&["-V"])), Ok(Command::Version));
}

#[test]
fn bad_arguments_are_usage_errors_on_stderr() {
    let cases: &[&[&str]] = &[
        &[],
        &["--unknown"],
        &["--format"],
        &["data/listings.json", "--format", "yaml"],
        &["data/listings.json", "data/invalid-listings.json"],
    ];
    for case in cases {
        let result = parse_arguments(&args(case));
        assert!(result.is_err(), "arguments: {case:?}");
        assert!(!result.err().unwrap().is_empty());
    }
}

#[test]
fn format_option_can_precede_input_and_text_is_the_default() {
    assert_eq!(
        parse_arguments(&args(&["--format", "json", "valid.json"])),
        Ok(Command::Validate { path: 2, format: Format::Json })
    );
    let default = parse_arguments(&args(&["valid.json"]));
    let explicit = parse_arguments(&args(&["valid.json", "--format", "text"]));
    assert_eq!(default, Ok(Command::Validate { path: 0, format: Format::Text }));
    assert_eq!(explicit, Ok(Command::Validate { path: 0, format: Format::Text }));
    let files = vec![file_report("valid.json", &format!("[{}]", valid_listing("DEMO-001")))];
    let text = text_report(&files);
    assert!(!text.is_empty());
    assert!(text.contains("DEMO-001"));
}
