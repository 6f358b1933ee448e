use json_validator::cli::{
    check_file_size, is_json_file, parse_arguments, select_json_files, Command, DirEntryInfo,
    Format, MAX_FILE_BYTES,
};
use json_validator::json::{find_member, Json, MemberNames, Number};
use json_validator::order::{sort_positions, sort_texts};
use json_validator::report::{exit_code, write_text, summarize, FileReport, InputError};
use json_validator::text::{chars_of, push_decimal, push_pointer_token, terminal_text, trimmed};
use json_validator::validate::{issue, validate, validate_listing, DocumentReport, EvidenceState};

fn text_report(files: &[FileReport]) -> String {
    let mut text = String::new();
    write_text(&mut text, files);
    text
}

fn text(s: &str) -> Json {
    Json::String(s.to_string())
}

fn member(name: &str, value: Json) -> (String, Json) {
    (name.to_string(), value)
}

fn listing(id: &str, granted: Json, source: Json) -> Json {
    Json::Object(vec![
        member("id", text(id)),
        member("property_type", text("House")),
        member("location", text("Tavira")),
        member("asking_price", Json::Number(Number::Unsigned(250000))),
        member(
            "advertising_permission",
            Json::Object(vec![member("granted", granted), member("source", source)]),
        ),
    ])
}

fn confirmed(id: &str) -> Json {
    listing(id, Json::Bool(true), text("fictional-permission"))
}

fn document_file(path: &str, document: DocumentReport) -> FileReport {
    FileReport { path: path.to_string(), result: Ok(document) }
}

#[test]
fn evidence_names() {
    assert_eq!(EvidenceState::Confirmed.as_str(), "Confirmed");
    assert_eq!(EvidenceState::Rejected.as_str(), "Rejected");
    assert_eq!(EvidenceState::Unknown.as_str(), "Unknown");
}

#[test]
fn issue_copies_its_texts() {
    let i = issue("/0/id", "Expected a nonblank string.");
    assert_eq!(i.path, "/0/id");
    assert_eq!(i.message, "Expected a nonblank string.");
}

#[test]
fn trimming_removes_unicode_white_space_only_at_the_ends() {
    assert_eq!(trimmed(" \t\n a b \u{3000}"), "a b");
    assert_eq!(trimmed("\u{a0}x"), "x");
    assert_eq!(trimmed("   "), "");
    assert_eq!(trimmed("x"), "x");
}

#[test]
fn blank_identifiers_include_ideographic_space() {
    let report = validate_listing(0, &listing("\u{3000}", Json::Bool(true), text("s")));
    assert_eq!(report.issues[0].path, "/0/id");
    assert_eq!(report.id, None);
}

#[test]
fn identifiers_are_reported_trimmed() {
    let report = validate_listing(3, &confirmed("  DEMO-9 "));
    assert_eq!(report.id.as_deref(), Some("DEMO-9"));
    assert_eq!(report.index, 3);
    assert!(report.passed());
}

#[test]
fn decimal_numbers() {
    let mut s = String::from("/");
    push_decimal(&mut s, 0);
    assert_eq!(s, "/0");
    let mut s = String::new();
    push_decimal(&mut s, 1207);
    assert_eq!(s, "1207");
    let mut s = String::new();
    push_decimal(&mut s, u64::MAX as u128 + 1);
    assert_eq!(s, "18446744073709551616");
}

#[test]
fn record_paths_use_decimal_indices() {
    let mut items: Vec<Json> = (0..12).map(|i| confirmed(&format!("ID-{i}"))).collect();
    items.push(Json::Null);
    let report = validate(&Json::Array(items));
    assert_eq!(report.listings[12].issues[0].path, "/12");
    assert_eq!(report.listings[12].issues[0].message, "Expected a listing object.");
}

#[test]
fn pointer_tokens_escape_tilde_and_slash() {
    let mut s = String::from("/0/");
    push_pointer_token(&mut s, &chars_of("a~b/c~/"));
    assert_eq!(s, "/0/a~0b~1c~0~1");
}

#[test]
fn terminal_text_escapes_control_characters() {
    assert_eq!(terminal_text("a\u{1b}[31m\tb\r\n"), "a\\u{1b}[31m\\tb\\r\\n");
    assert_eq!(terminal_text("\u{7f}\u{9f}"), "\\u{7f}\\u{9f}");
    assert_eq!(terminal_text("plain ✓ text"), "plain ✓ text");
    assert!(!terminal_text("\u{0}\u{85}").chars().any(char::is_control));
}

#[test]
fn find_member_reads_the_first_member_with_the_name() {
    let members = vec![member("a", Json::Null), member("b", Json::Bool(true)), member("b", Json::Bool(false))];
    assert_eq!(find_member(&members, "b"), Some(&Json::Bool(true)));
    assert_eq!(find_member(&members, "c"), None);
    let object = Json::Object(members);
    assert_eq!(object.get("a"), Some(&Json::Null));
    assert_eq!(Json::Null.get("a"), None);
}

#[test]
fn member_names_report_repeats() {
    let mut names = MemberNames::new();
    assert!(names.add("id"));
    assert!(names.add("Id"));
    assert!(names.add("id "));
    assert!(!names.add("id"));
    assert!(!names.add("Id"));
}

#[test]
fn json_accessors() {
    assert_eq!(Json::Number(Number::Unsigned(7)).as_u64(), Some(7));
    assert_eq!(Json::Number(Number::Negative(-7)).as_u64(), None);
    assert_eq!(Json::Number(Number::Float).as_u64(), None);
    assert_eq!(text("x").as_str().map(String::as_str), Some("x"));
    assert!(Json::Array(vec![]).as_array().unwrap().is_empty());
    assert!(Json::Null.as_object().is_none());
}

#[test]
fn unknown_fields_are_reported_in_byte_order() {
    let mut value = confirmed("X");
    if let Json::Object(members) = &mut value {
        members.push(member("zeta", Json::Null));
        members.push(member("Alpha", Json::Null));
        members.push(member("beta", Json::Null));
        members.push(member("é", Json::Null));
    }
    let report = validate_listing(0, &value);
    let paths: Vec<_> = report.issues.iter().map(|i| i.path.as_str()).collect();
    assert_eq!(paths, ["/0/Alpha", "/0/beta", "/0/zeta", "/0/é"]);
    assert!(report.issues.iter().all(|i| i.message == "Unsupported field."));
}

#[test]
fn sorting_texts_orders_by_code_point() {
    let sorted = sort_texts(vec![chars_of("b"), chars_of("ab"), chars_of("a"), chars_of("B"), chars_of("a")]);
    let words: Vec<String> = sorted.iter().map(|w| w.iter().collect()).collect();
    assert_eq!(words, ["B", "a", "a", "ab", "b"]);
}

#[test]
fn sorting_positions_is_stable_by_key() {
    let keys = vec![chars_of("b"), chars_of("a"), chars_of("b"), chars_of("a"), chars_of("")];
    assert_eq!(sort_positions(&keys, vec![0, 1, 2, 3, 4]), vec![4, 1, 3, 0, 2]);
    assert_eq!(sort_positions(&keys, vec![2, 0]), vec![0, 2]);
}

#[test]
fn duplicate_identifier_message_names_the_identifier() {
    let report = validate(&Json::Array(vec![confirmed("A"), confirmed("B"), confirmed(" A")]));
    assert_eq!(report.listings[0].issues.len(), 1);
    assert_eq!(report.listings[0].issues[0].path, "/0/id");
    assert_eq!(report.listings[0].issues[0].message, "Duplicate listing ID: A.");
    assert_eq!(report.listings[2].issues[0].path, "/2/id");
    assert_eq!(report.listings[2].reason, "Listing contains validation errors.");
    assert!(report.listings[1].passed());
}

#[test]
fn reasons_for_each_evidence_outcome() {
    let cases = [
        (listing("A", Json::Bool(true), text("src")), EvidenceState::Confirmed, "Permission is explicitly granted and includes a source."),
        (listing("A", Json::Bool(false), text("src")), EvidenceState::Rejected, "Permission is explicitly refused and includes a source."),
        (listing("A", Json::Null, text("src")), EvidenceState::Unknown, "No explicit permission decision supplied."),
        (listing("A", Json::Bool(true), Json::Null), EvidenceState::Unknown, "No nonblank permission source supplied."),
        (listing("A", Json::Bool(true), text(" \t")), EvidenceState::Unknown, "No nonblank permission source supplied."),
    ];
    for (value, evidence, reason) in cases {
        let report = validate_listing(0, &value);
        assert!(report.issues.is_empty());
        assert_eq!(report.evidence, Some(evidence));
        assert_eq!(report.reason, reason);
    }
}

#[test]
fn invalid_permission_value_reason() {
    let value = Json::Object(vec![
        member("id", text("A")),
        member("property_type", text("Land")),
        member("location", text("Faro")),
        member("asking_price", Json::Number(Number::Unsigned(1))),
        member("advertising_permission", Json::Bool(true)),
    ]);
    let report = validate_listing(0, &value);
    assert_eq!(report.issues.len(), 1);
    assert_eq!(report.issues[0].message, "Expected an object or null.");
    assert_eq!(report.evidence, None);
    assert_eq!(report.reason, "Listing contains validation errors.");
}

#[test]
fn document_level_messages() {
    let report = validate(&Json::Array(vec![]));
    assert_eq!(report.issues[0].message, "Expected at least one listing.");
    let report = validate(&Json::Bool(true));
    assert_eq!(report.issues[0].message, "Expected an array of listings.");
}

#[test]
fn arguments_after_double_dash_are_paths() {
    let args = vec![Some("--".to_string()), Some("--help".to_string())];
    assert_eq!(parse_arguments(&args), Ok(Command::Validate { path: 1, format: Format::Text }));
}

#[test]
fn argument_errors_name_the_problem() {
    let words = |w: &[&str]| w.iter().map(|s| Some(s.to_string())).collect::<Vec<_>>();
    assert_eq!(parse_arguments(&words(&["-"])), Err("unknown option: -".to_string()));
    assert_eq!(
        parse_arguments(&words(&["--format", "json", "--format", "text", "x"])),
        Err("--format may only be specified once".to_string())
    );
    assert_eq!(
        parse_arguments(&words(&["--format", "--help"])),
        Err("--format requires 'text' or 'json'".to_string())
    );
    assert_eq!(
        parse_arguments(&words(&["a", "b"])),
        Err("provide exactly one file or directory".to_string())
    );
    assert_eq!(
        parse_arguments(&words(&[])),
        Err("provide a JSON file or directory; use --help for usage".to_string())
    );
    assert_eq!(parse_arguments(&words(&["a", "--help", "b", "c"])), Ok(Command::Help));
    assert_eq!(parse_arguments(&words(&["a", "b", "--help"])), Err("provide exactly one file or directory".to_string()));
}

#[test]
fn arguments_that_are_not_unicode_are_paths() {
    let args = vec![None, Some("--format".to_string()), Some("json".to_string())];
    assert_eq!(parse_arguments(&args), Ok(Command::Validate { path: 0, format: Format::Json }));
}

#[test]
fn json_files_are_chosen_by_extension_in_any_case() {
    let file = |name: &str| DirEntryInfo { name: name.as_bytes().to_vec(), is_file: true };
    assert!(is_json_file(&file("a.json")));
    assert!(is_json_file(&file("a.JsOn")));
    assert!(is_json_file(&file("a.b.json")));
    assert!(!is_json_file(&file(".json")));
    assert!(!is_json_file(&file("json")));
    assert!(!is_json_file(&file("a.json.bak")));
    assert!(!is_json_file(&file("a.jsonx")));
    assert!(!is_json_file(&DirEntryInfo { name: b"a.json".to_vec(), is_file: false }));
    let entries = vec![file("b.json"), file("ab.json"), file("a.json"), file(".json"), file("A.JSON")];
    assert_eq!(select_json_files(&entries).ok().unwrap(), vec![4, 2, 1, 0]);
}

#[test]
fn size_limit_is_ten_mebibytes() {
    assert_eq!(MAX_FILE_BYTES, 10 * 1024 * 1024);
    let error = check_file_size(MAX_FILE_BYTES + 1).err().unwrap();
    assert_eq!(error.message, "file exceeds the 10 MiB size limit");
    assert_eq!(error.line, None);
}

#[test]
fn input_errors_keep_the_underlying_message() {
    let error = InputError::io(std::io::Error::new(std::io::ErrorKind::Other, "disk on fire"));
    assert_eq!(error.kind, "io");
    assert_eq!(error.message, "disk on fire");
    let parse_error = serde_json::from_str::<serde_json::Value>("[1,\n 2,,]").err().unwrap();
    let error = InputError::parse(parse_error);
    assert_eq!(error.kind, "parse");
    assert_eq!(error.line, Some(2));
    assert_eq!(error.column, Some(4));
    assert!(error.message.contains("line 2 column 4"));
    let error = InputError::input("too big");
    assert_eq!((error.kind, error.message.as_str()), ("input", "too big"));
}

#[test]
fn exit_code_cases() {
    assert_eq!(exit_code(&[]), 1);
    let pass = || document_file("a.json", validate(&Json::Array(vec![confirmed("A")])));
    assert_eq!(exit_code(&[pass()]), 0);
    let io = FileReport { path: "x".into(), result: Err(InputError::io(std::io::Error::from(std::io::ErrorKind::NotFound))) };
    let input = FileReport { path: "y".into(), result: Err(InputError::input("too big")) };
    assert_eq!(exit_code(&[pass(), input]), 1);
    assert_eq!(exit_code(&[pass(), io]), 2);
}

#[test]
fn summary_counts_each_listing_once() {
    let items = vec![
        confirmed("A"),
        listing("B", Json::Bool(false), text("s")),
        listing("C", Json::Null, Json::Null),
        Json::Null,
        confirmed("E"),
    ];
    let files = vec![
        document_file("a.json", validate(&Json::Array(items))),
        document_file("b.json", validate(&Json::Array(vec![]))),
        FileReport { path: "c.json".into(), result: Err(InputError::input("too big")) },
    ];
    let s = summarize(&files);
    assert_eq!((s.listings, s.passed, s.invalid), (5, 2, 1));
    assert_eq!((s.confirmed, s.rejected, s.unknown), (2, 1, 1));
    assert_eq!(s.confirmed + s.rejected + s.unknown + s.invalid, s.listings);
    assert_eq!(s.file_errors, 2);
}

#[test]
fn text_report_layout() {
    let files = vec![document_file("valid.json", validate(&Json::Array(vec![confirmed("DEMO-001")])))];
    assert_eq!(
        text_report(&files),
        "valid.json\n  PASS DEMO-001 [Confirmed]\n    Permission is explicitly granted and includes a source.\n\n\
         Summary: 1 file(s), 1 listing(s), 1 passed, 0 invalid\n\
         Evidence: 1 Confirmed, 0 Rejected, 0 Unknown; 0 file error(s)\nResult: PASS\n"
    );
}

#[test]
fn text_report_for_errors_and_invalid_listings() {
    let files = vec![
        FileReport { path: "bad\u{7}.json".into(), result: Err(InputError::input("too big")) },
        document_file("b.json", validate(&Json::Array(vec![Json::Null]))),
        document_file("c.json", validate(&Json::Bool(false))),
    ];
    assert_eq!(
        text_report(&files),
        "bad\\u{7}.json\n  ERROR (input): too big\n\n\
         b.json\n  FAIL listing #1 [Invalid]\n    Listing contains validation errors.\n    /0: Expected a listing object.\n\n\
         c.json\n    : Expected an array of listings.\n\n\
         Summary: 3 file(s), 1 listing(s), 0 passed, 1 invalid\n\
         Evidence: 0 Confirmed, 0 Rejected, 0 Unknown; 2 file error(s)\nResult: FAIL\n"
    );
}

#[test]
fn joined_runs_exit_with_the_larger_code() {
    let pass = || document_file("a.json", validate(&Json::Array(vec![confirmed("A")])));
    let fail = || document_file("b.json", validate(&Json::Array(vec![Json::Null])));
    let io = || FileReport {
        path: "x".into(),
        result: Err(InputError::io(std::io::Error::from(std::io::ErrorKind::NotFound))),
    };
    let runs: Vec<Vec<FileReport>> = vec![vec![pass()], vec![fail()], vec![io()], vec![pass(), fail()]];
    for a in 0..runs.len() {
        for b in 0..runs.len() {
            let rebuild = |k: usize| -> Vec<FileReport> {
                match k {
                    0 => vec![pass()],
                    1 => vec![fail()],
                    2 => vec![io()],
                    _ => vec![pass(), fail()],
                }
            };
            let mut joined = rebuild(a);
            joined.extend(rebuild(b));
            let expected = exit_code(&runs[a]).max(exit_code(&runs[b]));
            assert_eq!(exit_code(&joined), expected);
        }
    }
}

#[test]
fn passing_listings_are_the_confirmed_ones() {
    let items = vec![
        confirmed("A"),
        listing("B", Json::Bool(false), text("s")),
        listing("C", Json::Bool(true), text("  ")),
        confirmed("D"),
    ];
    let files = vec![document_file("a.json", validate(&Json::Array(items)))];
    let s = summarize(&files);
    assert_eq!((s.passed, s.confirmed), (2, 2));
}

#[test]
fn a_listing_passes_only_under_every_documented_condition() {
    assert!(validate_listing(0, &confirmed("A")).passed());
    let mut extra = confirmed("A");
    if let Json::Object(members) = &mut extra {
        members.push(member("colour", text("red")));
    }
    assert!(!validate_listing(0, &extra).passed());
    let permission_extra = Json::Object(vec![
        member("id", text("A")),
        member("property_type", text("Land")),
        member("location", text("Faro")),
        member("asking_price", Json::Number(Number::Unsigned(1))),
        member(
            "advertising_permission",
            Json::Object(vec![
                member("granted", Json::Bool(true)),
                member("source", text("agent")),
                member("note", text("x")),
            ]),
        ),
    ]);
    assert!(!validate_listing(0, &permission_extra).passed());
    assert!(!validate_listing(0, &listing("A", Json::Bool(false), text("agent"))).passed());
    assert!(!validate_listing(0, &listing("A", Json::Bool(true), Json::Null)).passed());
}

#[test]
fn a_document_passes_only_with_distinct_identifiers() {
    assert!(validate(&Json::Array(vec![confirmed("A"), confirmed("B")])).passed());
    assert!(!validate(&Json::Array(vec![confirmed("A"), confirmed(" A ")])).passed());
    assert!(!validate(&Json::Array(vec![])).passed());
}

#[test]
fn field_issues_point_at_the_field() {
    let mut item = confirmed("A");
    if let Json::Object(members) = &mut item {
        members[1].1 = text("house");
        members[3].1 = Json::Number(Number::Unsigned(0));
        members.push(member("property_type~", text("x")));
    }
    let report = validate_listing(3, &item);
    let paths: Vec<&str> = report.issues.iter().map(|i| i.path.as_str()).collect();
    assert_eq!(paths, vec!["/3/property_type", "/3/asking_price", "/3/property_type~0"]);
    assert!(report.issues.iter().all(|i| i.path == "/3" || i.path.starts_with("/3/")));
}

#[test]
fn text_report_writes_no_raw_control_character() {
    let items = vec![confirmed("A\u{1b}[2J"), listing("B\u{7}", Json::Bool(true), text("\u{85}src\r"))];
    let files = vec![document_file("dir\u{0}/a\n.json", validate(&Json::Array(items)))];
    let mut output = String::from("start\n");
    write_text(&mut output, &files);
    assert!(output.chars().all(|c| !c.is_control() || c == '\n'));
    assert!(output.contains("A\\u{1b}[2J"));
}

#[test]
fn trimming_agrees_with_char_is_whitespace_on_every_character() {
    for c in (0u32..=0x10ffff).filter_map(char::from_u32) {
        let one = c.to_string();
        assert_eq!(trimmed(&one).is_empty(), c.is_whitespace(), "U+{:04X}", c as u32);
    }
}

#[test]
fn terminal_text_agrees_with_char_is_control_on_every_character() {
    for c in (0u32..=0x10ffff).filter_map(char::from_u32) {
        let one = c.to_string();
        let expected = if c.is_control() { c.escape_default().to_string() } else { one.clone() };
        assert_eq!(terminal_text(&one), expected, "U+{:04X}", c as u32);
    }
}

#[test]
fn control_characters_show_their_code_point_in_hexadecimal() {
    for c in (0u32..=0x10ffff).filter_map(char::from_u32).filter(|c| c.is_control()) {
        let shown = terminal_text(&c.to_string());
        match c {
            '\t' => assert_eq!(shown, "\\t"),
            '\r' => assert_eq!(shown, "\\r"),
            '\n' => assert_eq!(shown, "\\n"),
            _ => {
                let digits = shown.strip_prefix("\\u{").and_then(|s| s.strip_suffix('}')).unwrap();
                assert_eq!(u32::from_str_radix(digits, 16).unwrap(), c as u32);
            }
        }
    }
}
