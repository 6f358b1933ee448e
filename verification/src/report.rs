//! Outcomes per input file, the process exit code, the summary counts, and the text report.

use vstd::prelude::*;
use crate::json::same_text;
use crate::text::{
    decimal, lemma_join_raw_control_free, push_decimal, raw_control_free, terminal_form, terminal_text,
};
use crate::validate::{
    DocumentReport, EvidenceState, Issue, IssueView, ListingReport, ListingView, issue_views,
    listing_views,
};

verus! {

/// `std::io::Error`, carried opaquely.
#[verifier::external_type_specification]
#[verifier::external_body]
pub struct ExIoError(std::io::Error);

/// `serde_json::Error`, carried opaquely.
#[verifier::external_type_specification]
#[verifier::external_body]
pub struct ExJsonError(serde_json::Error);

/// The line recorded in a JSON error: what `serde_json::Error::line` returns for it.
pub uninterp spec fn json_error_line(error: serde_json::Error) -> usize;

/// The column recorded in a JSON error: what `serde_json::Error::column` returns for it.
pub uninterp spec fn json_error_column(error: serde_json::Error) -> usize;

/// `serde_json::Error::line`, which returns the line recorded in the error (one-based, where
/// the parser stopped). Claimed: the result is `json_error_line` of the error, so the same
/// error always gives the same line; the number itself is left unsaid.
pub assume_specification[ serde_json::Error::line ](error: &serde_json::Error) -> (r: usize)
    ensures
        r == json_error_line(*error),
;

/// `serde_json::Error::column`, which returns the column recorded in the error (one-based,
/// where the parser stopped). Claimed: the result is `json_error_column` of the error; the
/// number itself is left unsaid.
pub assume_specification[ serde_json::Error::column ](error: &serde_json::Error) -> (r: usize)
    ensures
        r == json_error_column(*error),
;

/// Why a file yielded no document report.
pub struct InputError {
    /// `io`, `input` or `parse`.
    pub kind: &'static str,
    pub message: String,
    pub line: Option<usize>,
    pub column: Option<usize>,
}

impl InputError {
    /// A failure to find or read the input; the message is the error's own text.
    pub fn io(error: std::io::Error) -> (r: Self)
        ensures
            r.kind@ == "io"@,
            raw_control_free(r.kind@),
            vstd::string::to_string_from_display_ensures::<std::io::Error>(&error, r.message),
            r.line is None,
            r.column is None,
    {
        proof {
            reveal_strlit("io");
        }
        InputError { kind: "io", message: error.to_string(), line: None, column: None }
    }

    /// Input that was read but refused before parsing.
    pub fn input(message: &str) -> (r: Self)
        ensures
            r.kind@ == "input"@,
            raw_control_free(r.kind@),
            r.message@ == message@,
            r.line is None,
            r.column is None,
    {
        proof {
            reveal_strlit("input");
        }
        InputError { kind: "input", message: String::from_str(message), line: None, column: None }
    }

    /// Input that is not a JSON document (or repeats an object key); the message is the
    /// parser's own text, and the position is where the parser stopped.
    pub fn parse(error: serde_json::Error) -> (r: Self)
        ensures
            r.kind@ == "parse"@,
            raw_control_free(r.kind@),
            vstd::string::to_string_from_display_ensures::<serde_json::Error>(&error, r.message),
            r.line == Some(json_error_line(error)),
            r.column == Some(json_error_column(error)),
    {
        proof {
            reveal_strlit("parse");
        }
        let message = error.to_string();
        let line = error.line();
        let column = error.column();
        InputError { kind: "parse", message, line: Some(line), column: Some(column) }
    }
}

/// The outcome for one input file.
pub struct FileReport {
    /// The file's path, as it is shown.
    pub path: String,
    pub result: Result<DocumentReport, InputError>,
}

/// The file could not be found or read.
pub open spec fn io_failure(file: FileReport) -> bool {
    match file.result {
        Err(e) => e.kind@ == "io"@,
        Ok(_) => false,
    }
}

/// The file yielded a document report that passes.
pub open spec fn file_passed(file: FileReport) -> bool {
    match file.result {
        Ok(d) => d@.passed(),
        Err(_) => false,
    }
}

/// The process exit code for a run: 2 when a file could not be found or read; otherwise 0
/// when there is at least one file and every file yielded a passing document; 1 otherwise.
pub open spec fn exit_status(files: Seq<FileReport>) -> u8 {
    if exists|i: int| 0 <= i < files.len() && io_failure(#[trigger] files[i]) {
        2
    } else if files.len() > 0 && forall|i: int| 0 <= i < files.len() ==> file_passed(#[trigger] files[i]) {
        0
    } else {
        1
    }
}

/// The process exit code for a run: 2 when a file could not be found or read; otherwise 0
/// when there is at least one file and every file yielded a passing document; 1 otherwise.
pub fn exit_code(files: &[FileReport]) -> (r: u8)
    ensures
        r == exit_status(files@),
{
    let mut i: usize = 0;
    while i < files.len()
        invariant
            i <= files@.len(),
            forall|k: int| 0 <= k < i ==> !io_failure(#[trigger] files@[k]),
        decreases files.len() - i,
    {
        if let Err(error) = &files[i].result {
            if same_text(error.kind, "io") {
                assert(io_failure(files@[i as int]));
                return 2;
            }
        }
        i += 1;
    }
    if files.len() == 0 {
        return 1;
    }
    let mut i: usize = 0;
    while i < files.len()
        invariant
            i <= files@.len(),
            forall|k: int| 0 <= k < files@.len() ==> !io_failure(#[trigger] files@[k]),
            forall|k: int| 0 <= k < i ==> file_passed(#[trigger] files@[k]),
        decreases files.len() - i,
    {
        let passed = match &files[i].result {
            Ok(document) => document.passed(),
            Err(_) => false,
        };
        if !passed {
            assert(!file_passed(files@[i as int]));
            return 1;
        }
        i += 1;
    }
    0
}

// ---------------------------------------------------------------------------
// Summary
// ---------------------------------------------------------------------------

/// The listings reported for a file: none where the file yielded no document.
pub open spec fn file_listings(file: FileReport) -> Seq<ListingView> {
    match file.result {
        Ok(d) => d@.listings,
        Err(_) => seq![],
    }
}

/// The number of listings of all files that satisfy `pred`.
pub open spec fn count_listings(files: Seq<FileReport>, pred: spec_fn(ListingView) -> bool) -> nat
    decreases files.len(),
{
    if files.len() == 0 {
        0
    } else {
        count_listings(files.drop_last(), pred) + file_listings(files.last()).filter(pred).len()
    }
}

/// Every listing.
pub open spec fn any_listing() -> spec_fn(ListingView) -> bool {
    |l: ListingView| true
}

/// Listings that pass.
pub open spec fn passed_listing() -> spec_fn(ListingView) -> bool {
    |l: ListingView| l.passed()
}

/// Listings with at least one issue.
pub open spec fn invalid_listing() -> spec_fn(ListingView) -> bool {
    |l: ListingView| l.issues.len() > 0
}

/// Listings classified as `e`.
pub open spec fn evidence_is(e: EvidenceState) -> spec_fn(ListingView) -> bool {
    |l: ListingView| l.evidence == Some(e)
}

/// A file that yielded no document, or a document with issues of its own.
pub open spec fn file_error(file: FileReport) -> bool {
    match file.result {
        Ok(d) => d@.issues.len() > 0,
        Err(_) => true,
    }
}

/// Counts over all files of a run.
pub struct Summary {
    pub listings: usize,
    pub passed: usize,
    pub invalid: usize,
    pub confirmed: usize,
    pub rejected: usize,
    pub unknown: usize,
    pub file_errors: usize,
}

proof fn lemma_count_le_all(files: Seq<FileReport>, pred: spec_fn(ListingView) -> bool)
    ensures
        count_listings(files, pred) <= count_listings(files, any_listing()),
    decreases files.len(),
{
    if files.len() > 0 {
        lemma_count_le_all(files.drop_last(), pred);
        let l = file_listings(files.last());
        l.lemma_filter_len(pred);
        lemma_filter_all(l, any_listing());
    }
}

proof fn lemma_filter_all(s: Seq<ListingView>, pred: spec_fn(ListingView) -> bool)
    requires
        forall|x: ListingView| #[trigger] pred(x),
    ensures
        s.filter(pred) == s,
    decreases s.len(),
{
    reveal_with_fuel(Seq::filter, 1);
    if s.len() > 0 {
        lemma_filter_all(s.drop_last(), pred);
        assert(s.drop_last().push(s.last()) =~= s);
    } else {
        assert(s.filter(pred) =~= s);
    }
}

proof fn lemma_count_prefix(files: Seq<FileReport>, i: int, pred: spec_fn(ListingView) -> bool)
    requires
        0 <= i <= files.len(),
    ensures
        count_listings(files.take(i), pred) <= count_listings(files, pred),
    decreases files.len() - i,
{
    if i < files.len() {
        lemma_count_prefix(files, i + 1, pred);
        assert(files.take(i + 1).drop_last() =~= files.take(i));
    } else {
        assert(files.take(i) =~= files);
    }
}

proof fn lemma_filter_step(s: Seq<ListingView>, j: int, pred: spec_fn(ListingView) -> bool)
    requires
        0 <= j < s.len(),
    ensures
        s.take(j + 1).filter(pred).len() == s.take(j).filter(pred).len() + if pred(s[j]) {
            1int
        } else {
            0int
        },
{
    assert(s.take(j + 1) =~= s.take(j).push(s[j]));
    s.take(j).lemma_filter_push(s[j], pred);
}

/// The counts over the listings of one document; `file_errors` is left at 0.
fn tally(listings: &Vec<ListingReport>) -> (r: Summary)
    ensures
        r.listings == listing_views(listings@).filter(any_listing()).len(),
        r.passed == listing_views(listings@).filter(passed_listing()).len(),
        r.invalid == listing_views(listings@).filter(invalid_listing()).len(),
        r.confirmed == listing_views(listings@).filter(evidence_is(EvidenceState::Confirmed)).len(),
        r.rejected == listing_views(listings@).filter(evidence_is(EvidenceState::Rejected)).len(),
        r.unknown == listing_views(listings@).filter(evidence_is(EvidenceState::Unknown)).len(),
        r.file_errors == 0,
{
    let ghost s = listing_views(listings@);
    let mut r = Summary { listings: 0, passed: 0, invalid: 0, confirmed: 0, rejected: 0, unknown: 0, file_errors: 0 };
    let mut j: usize = 0;
    assert(s.take(0) =~= Seq::<ListingView>::empty());
    while j < listings.len()
        invariant
            j <= listings@.len(),
            s == listing_views(listings@),
            r.listings == s.take(j as int).filter(any_listing()).len(),
            r.passed == s.take(j as int).filter(passed_listing()).len(),
            r.invalid == s.take(j as int).filter(invalid_listing()).len(),
            r.confirmed == s.take(j as int).filter(evidence_is(EvidenceState::Confirmed)).len(),
            r.rejected == s.take(j as int).filter(evidence_is(EvidenceState::Rejected)).len(),
            r.unknown == s.take(j as int).filter(evidence_is(EvidenceState::Unknown)).len(),
            r.file_errors == 0,
            r.listings <= j,
            r.passed <= j,
            r.invalid <= j,
            r.confirmed <= j,
            r.rejected <= j,
            r.unknown <= j,
        decreases listings.len() - j,
    {
        let listing = &listings[j];
        proof {
            assert(s[j as int] == listing@);
            lemma_filter_step(s, j as int, any_listing());
            lemma_filter_step(s, j as int, passed_listing());
            lemma_filter_step(s, j as int, invalid_listing());
            lemma_filter_step(s, j as int, evidence_is(EvidenceState::Confirmed));
            lemma_filter_step(s, j as int, evidence_is(EvidenceState::Rejected));
            lemma_filter_step(s, j as int, evidence_is(EvidenceState::Unknown));
        }
        r.listings += 1;
        if listing.passed() {
            r.passed += 1;
        }
        if listing.issues.len() != 0 {
            r.invalid += 1;
        }
        match listing.evidence {
            Some(EvidenceState::Confirmed) => r.confirmed += 1,
            Some(EvidenceState::Rejected) => r.rejected += 1,
            Some(EvidenceState::Unknown) => r.unknown += 1,
            None => {},
        }
        j += 1;
    }
    assert(s.take(listings@.len() as int) =~= s);
    r
}

/// The counts over all files: listings, passing and invalid listings, listings by evidence,
/// and files that yielded no document or a document with issues of its own.
pub fn summarize(files: &[FileReport]) -> (r: Summary)
    requires
        count_listings(files@, any_listing()) <= usize::MAX,
    ensures
        r.listings == count_listings(files@, any_listing()),
        r.passed == count_listings(files@, passed_listing()),
        r.invalid == count_listings(files@, invalid_listing()),
        r.confirmed == count_listings(files@, evidence_is(EvidenceState::Confirmed)),
        r.rejected == count_listings(files@, evidence_is(EvidenceState::Rejected)),
        r.unknown == count_listings(files@, evidence_is(EvidenceState::Unknown)),
        r.file_errors == files@.filter(|f: FileReport| file_error(f)).len(),
{
    let ghost fs = files@;
    let ghost is_error = |f: FileReport| file_error(f);
    let mut r = Summary { listings: 0, passed: 0, invalid: 0, confirmed: 0, rejected: 0, unknown: 0, file_errors: 0 };
    let mut i: usize = 0;
    assert(fs.take(0) =~= Seq::<FileReport>::empty());
    while i < files.len()
        invariant
            i <= fs.len(),
            fs == files@,
            is_error == (|f: FileReport| file_error(f)),
            count_listings(fs, any_listing()) <= usize::MAX,
            r.listings == count_listings(fs.take(i as int), any_listing()),
            r.passed == count_listings(fs.take(i as int), passed_listing()),
            r.invalid == count_listings(fs.take(i as int), invalid_listing()),
            r.confirmed == count_listings(fs.take(i as int), evidence_is(EvidenceState::Confirmed)),
            r.rejected == count_listings(fs.take(i as int), evidence_is(EvidenceState::Rejected)),
            r.unknown == count_listings(fs.take(i as int), evidence_is(EvidenceState::Unknown)),
            r.file_errors == fs.take(i as int).filter(is_error).len(),
            r.file_errors <= i,
        decreases files.len() - i,
    {
        let file = &files[i];
        proof {
            assert(fs.take(i + 1).drop_last() =~= fs.take(i as int));
            assert(fs.take(i + 1).last() == fs[i as int]);
            assert(fs.take(i + 1) =~= fs.take(i as int).push(fs[i as int]));
            fs.take(i as int).lemma_filter_push(fs[i as int], is_error);
            lemma_count_prefix(fs, i + 1, any_listing());
            lemma_count_le_all(fs.take(i + 1), passed_listing());
            lemma_count_le_all(fs.take(i + 1), invalid_listing());
            lemma_count_le_all(fs.take(i + 1), evidence_is(EvidenceState::Confirmed));
            lemma_count_le_all(fs.take(i + 1), evidence_is(EvidenceState::Rejected));
            lemma_count_le_all(fs.take(i + 1), evidence_is(EvidenceState::Unknown));
        }
        match &file.result {
            Err(_) => {
                r.file_errors += 1;
            },
            Ok(document) => {
                if document.issues.len() != 0 {
                    r.file_errors += 1;
                }
                let t = tally(&document.listings);
                r.listings += t.listings;
                r.passed += t.passed;
                r.invalid += t.invalid;
                r.confirmed += t.confirmed;
                r.rejected += t.rejected;
                r.unknown += t.unknown;
            },
        }
        i += 1;
    }
    assert(fs.take(fs.len() as int) =~= fs);
    r
}

// ---------------------------------------------------------------------------
// Text report
// ---------------------------------------------------------------------------

/// An issue line: its pointer and message, made terminal-safe.
pub open spec fn issue_line(issue: IssueView) -> Seq<char> {
    "    "@ + terminal_form(issue.path) + ": "@ + terminal_form(issue.message) + "\n"@
}

/// One line per issue, in order.
pub open spec fn issue_lines(issues: Seq<IssueView>) -> Seq<char>
    decreases issues.len(),
{
    if issues.len() == 0 {
        seq![]
    } else {
        issue_lines(issues.drop_last()) + issue_line(issues.last())
    }
}

/// How a listing is named: its identifier, or its position counted from 1.
pub open spec fn listing_label(listing: ListingView) -> Seq<char> {
    match listing.id {
        Some(id) => id,
        None => "listing #"@ + decimal((listing.index + 1) as nat),
    }
}

/// The evidence of a listing, or `Invalid` for a listing that has none.
pub open spec fn status_name(listing: ListingView) -> Seq<char> {
    match listing.evidence {
        Some(e) => e.name(),
        None => "Invalid"@,
    }
}

/// `PASS` or `FAIL`.
pub open spec fn outcome_name(passed: bool) -> Seq<char> {
    if passed {
        "PASS"@
    } else {
        "FAIL"@
    }
}

/// The first line for a listing: outcome, label and status.
pub open spec fn listing_head(listing: ListingView) -> Seq<char> {
    "  "@ + outcome_name(listing.passed()) + " "@ + terminal_form(listing_label(listing)) + " ["@
        + status_name(listing) + "]\n"@
}

/// The lines for one listing: outcome, label and status; the reason; its issues.
pub open spec fn listing_lines(listing: ListingView) -> Seq<char> {
    listing_head(listing) + "    "@ + terminal_form(listing.reason) + "\n"@ + issue_lines(listing.issues)
}

/// The lines for each listing, in order.
pub open spec fn listings_lines(listings: Seq<ListingView>) -> Seq<char>
    decreases listings.len(),
{
    if listings.len() == 0 {
        seq![]
    } else {
        listings_lines(listings.drop_last()) + listing_lines(listings.last())
    }
}

/// The block for one file: its path; then its error, or its document's issues and
/// listings; then an empty line.
pub open spec fn file_block(file: FileReport) -> Seq<char> {
    terminal_form(file.path@) + "\n"@ + match file.result {
        Err(e) => "  ERROR ("@ + e.kind@ + "): "@ + terminal_form(e.message@) + "\n"@,
        Ok(d) => issue_lines(d@.issues) + listings_lines(d@.listings),
    } + "\n"@
}

/// The blocks of the files, in order.
pub open spec fn file_blocks(files: Seq<FileReport>) -> Seq<char>
    decreases files.len(),
{
    if files.len() == 0 {
        seq![]
    } else {
        file_blocks(files.drop_last()) + file_block(files.last())
    }
}

/// The three closing lines: the counts, the evidence counts, and the result.
pub open spec fn summary_lines(files: Seq<FileReport>) -> Seq<char> {
    counts_line(
        files.len(),
        count_listings(files, any_listing()),
        count_listings(files, passed_listing()),
        count_listings(files, invalid_listing()),
    ) + evidence_line(
        count_listings(files, evidence_is(EvidenceState::Confirmed)),
        count_listings(files, evidence_is(EvidenceState::Rejected)),
        count_listings(files, evidence_is(EvidenceState::Unknown)),
        files.filter(|f: FileReport| file_error(f)).len(),
    ) + "Result: "@ + outcome_name(exit_status(files) == 0) + "\n"@
}

/// The whole text report.
pub open spec fn text_report(files: Seq<FileReport>) -> Seq<char> {
    file_blocks(files) + summary_lines(files)
}

/// The fixed texts of the report hold no raw control character.
proof fn lemma_report_texts_plain()
    ensures
        raw_control_free("    "@),
        raw_control_free(": "@),
        raw_control_free("\n"@),
        raw_control_free("  "@),
        raw_control_free("PASS"@),
        raw_control_free("FAIL"@),
        raw_control_free(" "@),
        raw_control_free(" ["@),
        raw_control_free("]\n"@),
        raw_control_free("Invalid"@),
        raw_control_free("Confirmed"@),
        raw_control_free("Rejected"@),
        raw_control_free("Unknown"@),
        raw_control_free("  ERROR ("@),
        raw_control_free("): "@),
        raw_control_free("Summary: "@),
        raw_control_free(" file(s), "@),
        raw_control_free(" listing(s), "@),
        raw_control_free(" passed, "@),
        raw_control_free(" invalid\n"@),
        raw_control_free("Evidence: "@),
        raw_control_free(" Confirmed, "@),
        raw_control_free(" Rejected, "@),
        raw_control_free(" Unknown; "@),
        raw_control_free(" file error(s)\n"@),
        raw_control_free("Result: "@),
{
    reveal_strlit("    ");
    reveal_strlit(": ");
    reveal_strlit("\n");
    reveal_strlit("  ");
    reveal_strlit("PASS");
    reveal_strlit("FAIL");
    reveal_strlit(" ");
    reveal_strlit(" [");
    reveal_strlit("]\n");
    reveal_strlit("Invalid");
    reveal_strlit("Confirmed");
    reveal_strlit("Rejected");
    reveal_strlit("Unknown");
    reveal_strlit("  ERROR (");
    reveal_strlit("): ");
    reveal_strlit("Summary: ");
    reveal_strlit(" file(s), ");
    reveal_strlit(" listing(s), ");
    reveal_strlit(" passed, ");
    reveal_strlit(" invalid\n");
    reveal_strlit("Evidence: ");
    reveal_strlit(" Confirmed, ");
    reveal_strlit(" Rejected, ");
    reveal_strlit(" Unknown; ");
    reveal_strlit(" file error(s)\n");
    reveal_strlit("Result: ");
}

/// Appends `text`; where both hold no raw control character, neither does the result.
fn push_plain(s: &mut String, text: &str)
    ensures
        final(s)@ == old(s)@ + text@,
        raw_control_free(old(s)@) && raw_control_free(text@) ==> raw_control_free(final(s)@),
{
    let ghost before = s@;
    s.append(text);
    proof {
        if raw_control_free(before) && raw_control_free(text@) {
            lemma_join_raw_control_free(before, text@);
        }
    }
}

/// Appends `text`, made terminal-safe.
fn push_terminal(s: &mut String, text: &str)
    ensures
        final(s)@ == old(s)@ + terminal_form(text@),
        raw_control_free(old(s)@) ==> raw_control_free(final(s)@),
{
    let t = terminal_text(text);
    push_plain(s, t.as_str());
}

/// Appends one line per issue.
fn push_issue_lines(s: &mut String, issues: &Vec<Issue>)
    ensures
        final(s)@ == old(s)@ + issue_lines(issue_views(issues@)),
        raw_control_free(old(s)@) ==> raw_control_free(final(s)@),
{
    let ghost v = issue_views(issues@);
    let mut i: usize = 0;
    assert(v.take(0) =~= Seq::<IssueView>::empty());
    assert(s@ =~= old(s)@ + issue_lines(v.take(0)));
    while i < issues.len()
        invariant
            i <= issues@.len(),
            v == issue_views(issues@),
            s@ == old(s)@ + issue_lines(v.take(i as int)),
            raw_control_free(old(s)@) ==> raw_control_free(s@),
        decreases issues.len() - i,
    {
        proof {
            lemma_report_texts_plain();
        }
        let issue = &issues[i];
        push_plain(s, "    ");
        push_terminal(s, issue.path.as_str());
        push_plain(s, ": ");
        push_terminal(s, issue.message.as_str());
        push_plain(s, "\n");
        assert(v.take(i + 1).drop_last() =~= v.take(i as int));
        assert(v[i as int] == issue@);
        assert(s@ =~= old(s)@ + issue_lines(v.take(i + 1)));
        i += 1;
    }
    assert(v.take(issues@.len() as int) =~= v);
}

/// Appends the label of a listing, made terminal-safe.
fn push_label(s: &mut String, listing: &ListingReport)
    ensures
        final(s)@ == old(s)@ + terminal_form(listing_label(listing@)),
        raw_control_free(old(s)@) ==> raw_control_free(final(s)@),
{
    match &listing.id {
        Some(id) => push_terminal(s, id.as_str()),
        None => {
            let mut label = String::from_str("listing #");
            push_decimal(&mut label, listing.index as u128 + 1);
            push_terminal(s, label.as_str());
        },
    }
}

/// Appends the first line for a listing.
fn push_listing_head(s: &mut String, listing: &ListingReport)
    ensures
        final(s)@ == old(s)@ + listing_head(listing@),
        raw_control_free(old(s)@) ==> raw_control_free(final(s)@),
{
    proof {
        lemma_report_texts_plain();
    }
    let ghost start = s@;
    push_plain(s, "  ");
    if listing.passed() {
        push_plain(s, "PASS");
    } else {
        push_plain(s, "FAIL");
    }
    push_plain(s, " ");
    let ghost before_label = s@;
    push_label(s, listing);
    push_plain(s, " [");
    match listing.evidence {
        Some(e) => push_plain(s, e.as_str()),
        None => push_plain(s, "Invalid"),
    }
    push_plain(s, "]\n");
    assert(before_label =~= start + ("  "@ + outcome_name(listing@.passed()) + " "@));
    assert(s@ =~= start + listing_head(listing@));
}

/// Appends the lines for one listing.
fn push_listing_lines(s: &mut String, listing: &ListingReport)
    ensures
        final(s)@ == old(s)@ + listing_lines(listing@),
        raw_control_free(old(s)@) ==> raw_control_free(final(s)@),
{
    proof {
        lemma_report_texts_plain();
    }
    let ghost start = s@;
    push_listing_head(s, listing);
    push_plain(s, "    ");
    push_terminal(s, listing.reason.as_str());
    push_plain(s, "\n");
    let ghost before_issues = s@;
    push_issue_lines(s, &listing.issues);
    assert(before_issues =~= start + (listing_head(listing@) + "    "@ + terminal_form(listing@.reason) + "\n"@));
    assert(s@ =~= start + listing_lines(listing@));
}

/// Appends the block for one file.
fn push_file_block(s: &mut String, file: &FileReport)
    ensures
        final(s)@ == old(s)@ + file_block(*file),
        raw_control_free(old(s)@) && error_kind_plain(*file) ==> raw_control_free(final(s)@),
{
    assert(raw_control_free("\n"@)) by {
        reveal_strlit("\n");
    }
    push_terminal(s, file.path.as_str());
    push_plain(s, "\n");
    match &file.result {
        Err(error) => {
            assert(raw_control_free("  ERROR ("@) && raw_control_free("): "@)) by {
                reveal_strlit("  ERROR (");
                reveal_strlit("): ");
            }
            push_plain(s, "  ERROR (");
            push_plain(s, error.kind);
            push_plain(s, "): ");
            push_terminal(s, error.message.as_str());
            push_plain(s, "\n");
        },
        Ok(document) => {
            push_issue_lines(s, &document.issues);
            push_listings_lines(s, &document.listings);
        },
    }
    push_plain(s, "\n");
    assert(s@ =~= old(s)@ + file_block(*file));
}

/// Appends the lines for each listing, in order.
fn push_listings_lines(s: &mut String, listings: &Vec<ListingReport>)
    ensures
        final(s)@ == old(s)@ + listings_lines(listing_views(listings@)),
        raw_control_free(old(s)@) ==> raw_control_free(final(s)@),
{
    let ghost v = listing_views(listings@);
    let mut i: usize = 0;
    assert(v.take(0) =~= Seq::<ListingView>::empty());
    assert(s@ =~= old(s)@ + listings_lines(v.take(0)));
    while i < listings.len()
        invariant
            i <= listings@.len(),
            v == listing_views(listings@),
            s@ == old(s)@ + listings_lines(v.take(i as int)),
            raw_control_free(old(s)@) ==> raw_control_free(s@),
        decreases listings.len() - i,
    {
        push_listing_lines(s, &listings[i]);
        assert(v.take(i + 1).drop_last() =~= v.take(i as int));
        assert(v[i as int] == listings@[i as int]@);
        assert(s@ =~= old(s)@ + listings_lines(v.take(i + 1)));
        i += 1;
    }
    assert(v.take(listings@.len() as int) =~= v);
}

/// The line of counts.
pub open spec fn counts_line(files: nat, listings: nat, passed: nat, invalid: nat) -> Seq<char> {
    "Summary: "@ + decimal(files) + " file(s), "@ + decimal(listings) + " listing(s), "@ + decimal(
        passed,
    ) + " passed, "@ + decimal(invalid) + " invalid\n"@
}

/// The line of evidence counts.
pub open spec fn evidence_line(confirmed: nat, rejected: nat, unknown: nat, file_errors: nat) -> Seq<char> {
    "Evidence: "@ + decimal(confirmed) + " Confirmed, "@ + decimal(rejected) + " Rejected, "@
        + decimal(unknown) + " Unknown; "@ + decimal(file_errors) + " file error(s)\n"@
}

fn push_counts_line(s: &mut String, files: usize, listings: usize, passed: usize, invalid: usize)
    ensures
        final(s)@ == old(s)@ + counts_line(files as nat, listings as nat, passed as nat, invalid as nat),
        raw_control_free(old(s)@) ==> raw_control_free(final(s)@),
{
    proof {
        lemma_report_texts_plain();
    }
    let ghost start = s@;
    push_plain(s, "Summary: ");
    push_decimal(s, files as u128);
    push_plain(s, " file(s), ");
    push_decimal(s, listings as u128);
    push_plain(s, " listing(s), ");
    push_decimal(s, passed as u128);
    push_plain(s, " passed, ");
    push_decimal(s, invalid as u128);
    push_plain(s, " invalid\n");
    assert(s@ =~= start + counts_line(files as nat, listings as nat, passed as nat, invalid as nat));
}

fn push_evidence_line(s: &mut String, confirmed: usize, rejected: usize, unknown: usize, file_errors: usize)
    ensures
        final(s)@ == old(s)@ + evidence_line(
            confirmed as nat,
            rejected as nat,
            unknown as nat,
            file_errors as nat,
        ),
        raw_control_free(old(s)@) ==> raw_control_free(final(s)@),
{
    proof {
        lemma_report_texts_plain();
    }
    let ghost start = s@;
    push_plain(s, "Evidence: ");
    push_decimal(s, confirmed as u128);
    push_plain(s, " Confirmed, ");
    push_decimal(s, rejected as u128);
    push_plain(s, " Rejected, ");
    push_decimal(s, unknown as u128);
    push_plain(s, " Unknown; ");
    push_decimal(s, file_errors as u128);
    push_plain(s, " file error(s)\n");
    assert(s@ =~= start + evidence_line(confirmed as nat, rejected as nat, unknown as nat, file_errors as nat));
}

/// Appends the counts, the evidence counts and the result.
fn push_summary_lines(s: &mut String, files: &[FileReport])
    requires
        count_listings(files@, any_listing()) <= usize::MAX,
    ensures
        final(s)@ == old(s)@ + summary_lines(files@),
        raw_control_free(old(s)@) ==> raw_control_free(final(s)@),
{
    proof {
        lemma_report_texts_plain();
    }
    let summary = summarize(files);
    let ghost start = s@;
    push_counts_line(s, files.len(), summary.listings, summary.passed, summary.invalid);
    push_evidence_line(s, summary.confirmed, summary.rejected, summary.unknown, summary.file_errors);
    push_plain(s, "Result: ");
    if exit_code(files) == 0 {
        push_plain(s, "PASS");
    } else {
        push_plain(s, "FAIL");
    }
    push_plain(s, "\n");
    assert(s@ =~= start + summary_lines(files@));
}

/// The kind of a file's error, if it has one, holds no raw control character.
pub open spec fn error_kind_plain(file: FileReport) -> bool {
    match file.result {
        Err(e) => raw_control_free(e.kind@),
        Ok(_) => true,
    }
}

/// Appends the text report of a run to `output`: a block per file, then the summary and the
/// result. Paths, identifiers, reasons, pointers and messages are written terminal-safe, so
/// that the report adds no control character but the line feed.
pub fn write_text(output: &mut String, files: &[FileReport])
    requires
        count_listings(files@, any_listing()) <= usize::MAX,
    ensures
        final(output)@ == old(output)@ + text_report(files@),
        raw_control_free(old(output)@) && (forall|f: int| 0 <= f < files@.len() ==> error_kind_plain(#[trigger] files@[f]))
            ==> raw_control_free(final(output)@),
{
    let mut s = String::new();
    let ghost fs = files@;
    let mut i: usize = 0;
    assert(fs.take(0) =~= Seq::<FileReport>::empty());
    assert(s@ =~= file_blocks(fs.take(0)));
    while i < files.len()
        invariant
            i <= fs.len(),
            fs == files@,
            s@ == file_blocks(fs.take(i as int)),
            (forall|f: int| 0 <= f < fs.len() ==> error_kind_plain(#[trigger] fs[f])) ==> raw_control_free(s@),
        decreases files.len() - i,
    {
        push_file_block(&mut s, &files[i]);
        assert(fs.take(i + 1).drop_last() =~= fs.take(i as int));
        i += 1;
    }
    assert(fs.take(fs.len() as int) =~= fs);
    push_summary_lines(&mut s, files);
    assert(s@ =~= text_report(files@));
    let ghost before = output@;
    output.append(s.as_str());
    proof {
        if raw_control_free(before) && (forall|f: int| 0 <= f < fs.len() ==> error_kind_plain(#[trigger] fs[f])) {
            lemma_join_raw_control_free(before, s@);
        }
    }
}

} // verus!
