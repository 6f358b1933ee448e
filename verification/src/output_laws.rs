//! What the written output says: decimal numerals that read back as their numbers, and a text
//! report that is built piece by piece from its files, listings and issues.

use vstd::prelude::*;
use crate::report::{
    FileReport, exit_status, file_block, file_blocks, io_failure, issue_lines, listing_head, listing_label,
    listing_lines, listings_lines, outcome_name, status_name, summary_lines, text_report, any_listing,
    count_listings, evidence_is, file_error, invalid_listing, passed_listing,
};
use crate::text::{decimal, terminal_form};
use crate::validate::{EvidenceState, IssueView, ListingView, record_path};

verus! {

/// A character among `0` to `9`.
pub open spec fn decimal_digit(c: char) -> bool {
    0x30 <= (c as u32) <= 0x39
}

/// The number that a string of decimal digits denotes, read from the left.
pub open spec fn digits_value(digits: Seq<char>) -> int
    decreases digits.len(),
{
    if digits.len() == 0 {
        0
    } else {
        digits_value(digits.drop_last()) * 10 + ((digits.last() as u32) - 0x30)
    }
}

/// `decimal(n)` is the base-10 numeral of `n`: a nonempty string of decimal digits, with no
/// leading zero unless it is `0` itself, whose digits read back give `n`.
pub proof fn decimal_is_the_base_ten_numeral(n: nat)
    ensures
        decimal(n).len() > 0,
        forall|i: int| 0 <= i < decimal(n).len() ==> decimal_digit(#[trigger] decimal(n)[i]),
        n > 0 ==> decimal(n)[0] != '0',
        digits_value(decimal(n)) == n,
    decreases n,
{
    if n >= 10 {
        let q = n / 10;
        let r = n % 10;
        decimal_is_the_base_ten_numeral(q);
        let d = decimal(q);
        assert(decimal(n) == d.push(crate::text::digit_char(r)));
        assert(decimal(n).drop_last() =~= d);
        assert(decimal(n)[0] == d[0]);
        let c = crate::text::digit_char(r);
        assert((c as u32) == 0x30 + r);
        assert(decimal(n).last() == c);
        assert(digits_value(decimal(n)) == digits_value(d) * 10 + r);
        assert(n == q * 10 + r);
    } else {
        let c = crate::text::digit_char(n);
        assert((c as u32) == 0x30 + n);
        assert(decimal(n) == seq![c]);
        assert(decimal(n).drop_last() =~= Seq::<char>::empty());
        assert(digits_value(Seq::<char>::empty()) == 0);
        assert(decimal(n).last() == c);
    }
}

/// Different numbers have different numerals, so different records have different pointers.
pub proof fn distinct_numbers_have_distinct_numerals(m: nat, n: nat)
    requires
        m != n,
    ensures
        decimal(m) != decimal(n),
        record_path(m) != record_path(n),
{
    decimal_is_the_base_ten_numeral(m);
    decimal_is_the_base_ten_numeral(n);
    if record_path(m) == record_path(n) {
        assert(decimal(m) =~= record_path(m).drop_first());
        assert(decimal(n) =~= record_path(n).drop_first());
    }
}

/// The lines for a list of issues are the lines of each issue in turn, and the line of one
/// issue is four spaces, its pointer, a colon and a space, its message and a line feed.
pub proof fn issue_lines_are_one_line_per_issue(a: Seq<IssueView>, b: Seq<IssueView>, x: IssueView)
    ensures
        issue_lines(a + b) == issue_lines(a) + issue_lines(b),
        issue_lines(seq![x]) == "    "@ + terminal_form(x.path) + ": "@ + terminal_form(x.message) + "\n"@,
    decreases b.len(),
{
    if b.len() > 0 {
        issue_lines_are_one_line_per_issue(a, b.drop_last(), x);
        assert((a + b).drop_last() =~= a + b.drop_last());
        assert((a + b).last() == b.last());
    } else {
        assert(a + b =~= a);
    }
    assert(seq![x].drop_last() =~= Seq::<IssueView>::empty());
    assert(issue_lines(Seq::<IssueView>::empty()) == Seq::<char>::empty());
    assert(seq![x].last() == x);
    assert(issue_lines(seq![x]) =~= crate::report::issue_line(x));
}

/// The lines for a list of listings are the lines of each listing in turn.
pub proof fn listings_lines_are_the_lines_of_each_listing(a: Seq<ListingView>, b: Seq<ListingView>)
    ensures
        listings_lines(a + b) == listings_lines(a) + listings_lines(b),
    decreases b.len(),
{
    if b.len() > 0 {
        listings_lines_are_the_lines_of_each_listing(a, b.drop_last());
        assert((a + b).drop_last() =~= a + b.drop_last());
        assert((a + b).last() == b.last());
    } else {
        assert(a + b =~= a);
    }
}

/// The blocks for a list of files are the block of each file in turn.
pub proof fn file_blocks_are_the_block_of_each_file(a: Seq<FileReport>, b: Seq<FileReport>, f: FileReport)
    ensures
        file_blocks(a + b) == file_blocks(a) + file_blocks(b),
        file_blocks(seq![f]) == file_block(f),
    decreases b.len(),
{
    if b.len() > 0 {
        file_blocks_are_the_block_of_each_file(a, b.drop_last(), f);
        assert((a + b).drop_last() =~= a + b.drop_last());
        assert((a + b).last() == b.last());
    } else {
        assert(a + b =~= a);
    }
    assert(seq![f].drop_last() =~= Seq::<FileReport>::empty());
    assert(file_blocks(Seq::<FileReport>::empty()) == Seq::<char>::empty());
    assert(seq![f].last() == f);
    assert(file_blocks(seq![f]) =~= file_block(f));
}

/// The three evidence states have three different names, none of them `Invalid`.
pub proof fn evidence_names_are_distinct(a: EvidenceState, b: EvidenceState)
    ensures
        a != b ==> a.name() != b.name(),
        a.name() != "Invalid"@,
{
    reveal_strlit("Confirmed");
    reveal_strlit("Rejected");
    reveal_strlit("Unknown");
    reveal_strlit("Invalid");
    assert("Confirmed"@[0] != "Rejected"@[0]);
    assert("Confirmed"@[0] != "Unknown"@[0]);
    assert("Rejected"@[0] != "Unknown"@[0]);
    assert("Invalid"@[0] != "Confirmed"@[0]);
    assert("Invalid"@[0] != "Rejected"@[0]);
    assert("Invalid"@[0] != "Unknown"@[0]);
}

/// A listing's line shows the name of its evidence state, or `Invalid` when it has none, and
/// names the listing by its identifier when it has one.
pub proof fn head_lines_show_evidence_and_identifier(l: ListingView)
    ensures
        l.evidence matches Some(e) ==> status_name(l) == e.name(),
        l.evidence is None ==> status_name(l) == "Invalid"@,
        l.id matches Some(id) ==> listing_label(l) == id,
{
}

/// A listing's lines begin with `  PASS` exactly when it has no issue and its evidence is
/// confirmed, and with `  FAIL` otherwise; they end with one line for each of its issues.
pub proof fn listing_lines_show_outcome_and_issues(l: ListingView)
    ensures
        listing_lines(l).len() >= 6,
        listing_lines(l).subrange(0, 6) == if l.issues.len() == 0 && l.evidence == Some(
            EvidenceState::Confirmed,
        ) {
            "  PASS"@
        } else {
            "  FAIL"@
        },
        listing_lines(l).len() >= issue_lines(l.issues).len(),
        listing_lines(l).subrange(
            listing_lines(l).len() - issue_lines(l.issues).len(),
            listing_lines(l).len() as int,
        ) == issue_lines(l.issues),
{
    reveal_strlit("  ");
    reveal_strlit("PASS");
    reveal_strlit("FAIL");
    reveal_strlit("  PASS");
    reveal_strlit("  FAIL");
    let lines = listing_lines(l);
    let head = listing_head(l);
    let rest = lines.subrange(0, lines.len() - issue_lines(l.issues).len());
    assert(lines.subrange(lines.len() - issue_lines(l.issues).len(), lines.len() as int) =~= issue_lines(
        l.issues,
    ));
    assert(lines.subrange(0, 6) =~= head.subrange(0, 6));
    assert(head.subrange(0, 6) =~= ("  "@ + outcome_name(l.passed())));
}

/// A run exits with 2 exactly when some file could not be found or read, with 0 exactly when
/// there is at least one file and every file yielded a document that passes, and with 1
/// otherwise; the text report's last line says `Result: PASS` exactly when the code is 0.
pub proof fn exit_codes_follow_the_documented_table(files: Seq<FileReport>)
    ensures
        exit_status(files) == 2 <==> exists|i: int|
            0 <= i < files.len() && ((#[trigger] files[i]).result matches Err(e) && e.kind@ == "io"@),
        exit_status(files) == 0 <==> files.len() > 0 && forall|i: int|
            0 <= i < files.len() ==> ((#[trigger] files[i]).result matches Ok(d) && d@.passed()),
        exit_status(files) == 0 || exit_status(files) == 1 || exit_status(files) == 2,
        text_report(files).len() >= 13,
        text_report(files).subrange(text_report(files).len() - 13, text_report(files).len() as int) == if exit_status(files)
            == 0 {
            "Result: PASS\n"@
        } else {
            "Result: FAIL\n"@
        },
{
    reveal_strlit("Result: ");
    reveal_strlit("PASS");
    reveal_strlit("FAIL");
    reveal_strlit("\n");
    reveal_strlit("Result: PASS\n");
    reveal_strlit("Result: FAIL\n");
    if exists|i: int| 0 <= i < files.len() && ((#[trigger] files[i]).result matches Err(e) && e.kind@ == "io"@) {
        let i = choose|i: int| 0 <= i < files.len() && ((#[trigger] files[i]).result matches Err(e) && e.kind@ == "io"@);
        assert(io_failure(files[i]));
    }
    if exit_status(files) == 2 {
        let i = choose|i: int| 0 <= i < files.len() && io_failure(#[trigger] files[i]);
        assert(files[i].result matches Err(e) && e.kind@ == "io"@);
    }
    let t = text_report(files);
    let tail = "Result: "@ + outcome_name(exit_status(files) == 0) + "\n"@;
    assert(t =~= file_blocks(files) + (summary_lines(files).subrange(0, summary_lines(files).len() - 13)) + tail);
    assert(t.subrange(t.len() - 13, t.len() as int) =~= tail);
}

/// The summary lines give, in this order, the number of files; of listings; of listings that
/// pass (valid, with confirmed evidence); of invalid listings; of listings with each evidence
/// state; of files that yielded no document or a document with issues of its own; and the
/// result.
pub proof fn summary_lines_state_the_counts(files: Seq<FileReport>)
    ensures
        summary_lines(files) == "Summary: "@ + decimal(files.len()) + " file(s), "@ + decimal(
            count_listings(files, |l: ListingView| true),
        ) + " listing(s), "@ + decimal(
            count_listings(
                files,
                |l: ListingView| l.issues.len() == 0 && l.evidence == Some(EvidenceState::Confirmed),
            ),
        ) + " passed, "@ + decimal(count_listings(files, |l: ListingView| l.issues.len() > 0)) + " invalid\n"@
            + "Evidence: "@ + decimal(
            count_listings(files, |l: ListingView| l.evidence == Some(EvidenceState::Confirmed)),
        ) + " Confirmed, "@ + decimal(
            count_listings(files, |l: ListingView| l.evidence == Some(EvidenceState::Rejected)),
        ) + " Rejected, "@ + decimal(
            count_listings(files, |l: ListingView| l.evidence == Some(EvidenceState::Unknown)),
        ) + " Unknown; "@ + decimal(
            files.filter(
                |f: FileReport|
                    match f.result {
                        Ok(d) => d@.issues.len() > 0,
                        Err(_) => true,
                    },
            ).len(),
        ) + " file error(s)\n"@ + "Result: "@ + (if exit_status(files) == 0 {
            "PASS"@
        } else {
            "FAIL"@
        }) + "\n"@,
{
    assert(any_listing() =~= |l: ListingView| true);
    assert(passed_listing() =~= |l: ListingView|
        l.issues.len() == 0 && l.evidence == Some(EvidenceState::Confirmed));
    assert(invalid_listing() =~= |l: ListingView| l.issues.len() > 0);
    assert(evidence_is(EvidenceState::Confirmed) =~= |l: ListingView|
        l.evidence == Some(EvidenceState::Confirmed));
    assert(evidence_is(EvidenceState::Rejected) =~= |l: ListingView| l.evidence == Some(EvidenceState::Rejected));
    assert(evidence_is(EvidenceState::Unknown) =~= |l: ListingView| l.evidence == Some(EvidenceState::Unknown));
    assert((|f: FileReport| file_error(f)) =~= |f: FileReport|
        match f.result {
            Ok(d) => d@.issues.len() > 0,
            Err(_) => true,
        });
    assert(summary_lines(files) =~= "Summary: "@ + decimal(files.len()) + " file(s), "@ + decimal(
        count_listings(files, |l: ListingView| true),
    ) + " listing(s), "@ + decimal(
        count_listings(files, |l: ListingView| l.issues.len() == 0 && l.evidence == Some(EvidenceState::Confirmed)),
    ) + " passed, "@ + decimal(count_listings(files, |l: ListingView| l.issues.len() > 0)) + " invalid\n"@
        + "Evidence: "@ + decimal(
        count_listings(files, |l: ListingView| l.evidence == Some(EvidenceState::Confirmed)),
    ) + " Confirmed, "@ + decimal(count_listings(files, |l: ListingView| l.evidence == Some(EvidenceState::Rejected)))
        + " Rejected, "@ + decimal(count_listings(files, |l: ListingView| l.evidence == Some(EvidenceState::Unknown)))
        + " Unknown; "@ + decimal(
        files.filter(
            |f: FileReport|
                match f.result {
                    Ok(d) => d@.issues.len() > 0,
                    Err(_) => true,
                },
        ).len(),
    ) + " file error(s)\n"@ + "Result: "@ + (if exit_status(files) == 0 {
        "PASS"@
    } else {
        "FAIL"@
    }) + "\n"@);
}

} // verus!
