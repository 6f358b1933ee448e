//! What validation guarantees of every document, proved over the reports it yields.

use vstd::prelude::*;
use crate::json::{Json, Number, member, member_names};
use crate::report::{
    FileReport, summary_lines, text_report, any_listing, count_listings, evidence_is, exit_status, file_error, file_listings,
    file_passed, invalid_listing, io_failure, passed_listing,
};
use crate::order::{text_order, text_order_is_total};
use crate::text::trim;
use crate::validate::{
    EvidenceState, IssueView, ListingView, PermissionView, checked_listing, invalid_reason, permission_outcome, document_outcome, duplicate_issue, granted_of, listing_fields,
    listing_outcome, nonblank_text, permission_fields, price_ok, property_type_ok, record_path,
    shares_id, source_of, unknown_names,
};

verus! {

/// Unknown information never counts as confirmed: a record passes only when its
/// `advertising_permission` is an object whose `granted` is `true` and whose `source` is a
/// string that is not blank.
pub proof fn passing_requires_an_explicit_grant_with_a_source(items: Seq<Json>, i: int)
    requires
        0 <= i < items.len(),
        checked_listing(items, i).passed(),
    ensures
        items[i].field("advertising_permission"@) matches Some(Json::Object(members)) && {
            &&& granted_of(members@) == Some(true)
            &&& source_of(members@) matches Some(source) && source.len() > 0
        },
{
}

/// Evidence is classified as confirmed or rejected only on an explicit boolean decision with
/// a nonblank source; missing, null or mistyped evidence yields `Unknown` or no
/// classification at all.
pub proof fn classified_evidence_requires_a_decision_and_a_source(items: Seq<Json>, i: int)
    requires
        0 <= i < items.len(),
        checked_listing(items, i).evidence == Some(EvidenceState::Confirmed)
            || checked_listing(items, i).evidence == Some(EvidenceState::Rejected),
    ensures
        items[i].field("advertising_permission"@) matches Some(Json::Object(members)) && {
            &&& granted_of(members@) is Some
            &&& source_of(members@) matches Some(source) && source.len() > 0
            &&& checked_listing(items, i).evidence == Some(
                if granted_of(members@)->0 {
                    EvidenceState::Confirmed
                } else {
                    EvidenceState::Rejected
                },
            )
        },
{
}

/// Invalid listings have no evidence classification and give the reason that the listing has
/// validation errors; valid ones always have a classification.
pub proof fn only_valid_listings_are_classified(items: Seq<Json>, i: int)
    requires
        0 <= i < items.len(),
    ensures
        checked_listing(items, i).evidence is Some <==> checked_listing(items, i).issues.len() == 0,
        checked_listing(items, i).issues.len() > 0 ==> checked_listing(items, i).reason == invalid_reason(),
{
}

/// What an advertising permission establishes: `Confirmed` exactly for an object whose
/// `granted` is `true` and whose `source` is a string that is not blank, `Rejected` exactly for
/// such an object whose `granted` is `false`, and `Unknown` in every other case. An absent or
/// null permission adds no issue; any other value that is not an object adds one issue at the
/// permission itself.
pub proof fn permission_evidence_follows_the_recorded_decision(value: Option<Json>, base: Seq<char>)
    ensures
        permission_outcome(value, base).evidence == EvidenceState::Confirmed <==> recorded_decision(value, true),
        permission_outcome(value, base).evidence == EvidenceState::Rejected <==> recorded_decision(value, false),
        (value is None || value == Some(Json::Null)) ==> permission_outcome(value, base) == (PermissionView {
            evidence: EvidenceState::Unknown,
            reason: "No advertising permission supplied."@,
            issues: seq![],
        }),
        recorded_decision(value, true) ==> permission_outcome(value, base).reason
            == "Permission is explicitly granted and includes a source."@,
        recorded_decision(value, false) ==> permission_outcome(value, base).reason
            == "Permission is explicitly refused and includes a source."@,
        (value matches Some(Json::Object(p)) && !(member(p@, "granted"@) matches Some(Json::Bool(_))))
            ==> permission_outcome(value, base).evidence == EvidenceState::Unknown && permission_outcome(
            value,
            base,
        ).reason == "No explicit permission decision supplied."@,
        (value matches Some(Json::Object(p)) && member(p@, "granted"@) matches Some(Json::Bool(_))
            && !nonblank_string(member(p@, "source"@))) ==> permission_outcome(value, base).evidence
            == EvidenceState::Unknown && permission_outcome(value, base).reason
            == "No nonblank permission source supplied."@,
        (value matches Some(v) && !(v is Object) && !(v is Null)) ==> permission_outcome(value, base) == (
        PermissionView {
            evidence: EvidenceState::Unknown,
            reason: "Invalid advertising permission."@,
            issues: seq![IssueView { path: base, message: "Expected an object or null."@ }],
        }),
{
}

/// The permission is an object recording the decision `granted` with a source that is a string
/// and not blank.
pub open spec fn recorded_decision(value: Option<Json>, granted: bool) -> bool {
    value matches Some(Json::Object(p)) && {
        &&& member(p@, "granted"@) == Some(Json::Bool(granted))
        &&& nonblank_string(member(p@, "source"@))
    }
}

/// The text report ends with its three summary lines.
pub proof fn text_reports_end_with_the_summary(files: Seq<FileReport>)
    ensures
        text_report(files).len() >= summary_lines(files).len(),
        text_report(files).subrange(
            text_report(files).len() - summary_lines(files).len(),
            text_report(files).len() as int,
        ) == summary_lines(files),
{
    assert(text_report(files).subrange(
        text_report(files).len() - summary_lines(files).len(),
        text_report(files).len() as int,
    ) =~= summary_lines(files));
}

/// Every record of a nonempty array is reported on, at its own index, whatever the other
/// records hold; the document has no issue of its own.
pub proof fn every_record_is_reported(value: Json)
    requires
        value matches Json::Array(items) && 0 < items@.len() <= usize::MAX,
    ensures
        value matches Json::Array(items) && {
            &&& document_outcome(value).issues.len() == 0
            &&& document_outcome(value).listings.len() == items@.len()
            &&& forall|i: int| 0 <= i < items@.len()
                ==> (#[trigger] document_outcome(value).listings[i]).index == i
        },
{
    if let Json::Array(items) = value {
        assert forall|i: int| 0 <= i < items@.len() implies (#[trigger] document_outcome(value).listings[i]).index == i by {
            assert(document_outcome(value).listings[i] == checked_listing(items@, i));
        }
    }
}

/// Only a nonempty array of listings that all pass yields a passing document.
pub proof fn passing_documents_are_nonempty_arrays_of_passing_listings(value: Json)
    requires
        document_outcome(value).passed(),
    ensures
        value matches Json::Array(items) && {
            &&& items@.len() > 0
            &&& forall|i: int| 0 <= i < items@.len() ==> (#[trigger] checked_listing(items@, i)).passed()
        },
{
    if let Json::Array(items) = value {
        assert forall|i: int| 0 <= i < items@.len() implies (#[trigger] checked_listing(items@, i)).passed() by {
            assert(document_outcome(value).listings[i] == checked_listing(items@, i));
        }
    }
}

/// Records whose identifiers agree after trimming are all invalid: each fails, has no
/// evidence classification, and ends with an issue at its own `id`.
pub proof fn shared_identifiers_invalidate_every_occurrence(items: Seq<Json>, i: int, j: int)
    requires
        0 <= i < items.len(),
        0 <= j < items.len(),
        i != j,
        nonblank_text(items[i], "id"@) is Some,
        nonblank_text(items[i], "id"@) == nonblank_text(items[j], "id"@),
    ensures
        !checked_listing(items, i).passed(),
        checked_listing(items, i).evidence is None,
        checked_listing(items, i).issues.last() == duplicate_issue(i as nat, nonblank_text(items[i], "id"@)->0),
        duplicate_issue(i as nat, nonblank_text(items[i], "id"@)->0).path == record_path(i as nat) + seq!['/'] + "id"@,
        duplicate_issue(i as nat, nonblank_text(items[i], "id"@)->0).message == "Duplicate listing ID: "@
            + nonblank_text(items[i], "id"@)->0 + "."@,
{
    assert(items[j] == items[j]);
    assert(nonblank_text(items[j], "id"@) == nonblank_text(items[i], "id"@));
}

/// Every listing of the reports is classified exactly when it is valid, as `validate`
/// guarantees (see `only_valid_listings_are_classified`).
pub open spec fn classified_iff_valid(files: Seq<FileReport>) -> bool {
    forall|f: int, k: int|
        0 <= f < files.len() && 0 <= k < file_listings(files[f]).len() ==> {
            let l = #[trigger] file_listings(files[f])[k];
            l.evidence is Some <==> l.issues.len() == 0
        }
}

proof fn lemma_partition_one(s: Seq<ListingView>)
    requires
        forall|k: int| 0 <= k < s.len() ==> ((#[trigger] s[k]).evidence is Some <==> s[k].issues.len() == 0),
    ensures
        s.filter(evidence_is(EvidenceState::Confirmed)).len() + s.filter(evidence_is(EvidenceState::Rejected)).len()
            + s.filter(evidence_is(EvidenceState::Unknown)).len() + s.filter(invalid_listing()).len() == s.len(),
        s.filter(passed_listing()).len() == s.filter(evidence_is(EvidenceState::Confirmed)).len(),
    decreases s.len(),
{
    reveal_with_fuel(Seq::filter, 1);
    if s.len() > 0 {
        let d = s.drop_last();
        let l = s.last();
        lemma_partition_one(d);
        assert(d.push(l) =~= s);
        d.lemma_filter_push(l, evidence_is(EvidenceState::Confirmed));
        d.lemma_filter_push(l, evidence_is(EvidenceState::Rejected));
        d.lemma_filter_push(l, evidence_is(EvidenceState::Unknown));
        d.lemma_filter_push(l, invalid_listing());
        d.lemma_filter_push(l, passed_listing());
        assert(l == s[s.len() - 1]);
        match l.evidence {
            Some(EvidenceState::Confirmed) => {},
            Some(EvidenceState::Rejected) => {},
            Some(EvidenceState::Unknown) => {},
            None => {},
        }
    } else {
        assert(s.filter(invalid_listing()) =~= s);
        assert(s.filter(passed_listing()) =~= s);
        assert(s.filter(evidence_is(EvidenceState::Confirmed)) =~= s);
        assert(s.filter(evidence_is(EvidenceState::Rejected)) =~= s);
        assert(s.filter(evidence_is(EvidenceState::Unknown)) =~= s);
    }
}

/// In a run whose listings are classified exactly when valid, every listing is counted once
/// among confirmed, rejected, unknown and invalid, and the listings that pass are exactly
/// those that are confirmed.
pub proof fn summary_counts_partition_the_listings(files: Seq<FileReport>)
    requires
        classified_iff_valid(files),
    ensures
        count_listings(files, evidence_is(EvidenceState::Confirmed)) + count_listings(
            files,
            evidence_is(EvidenceState::Rejected),
        ) + count_listings(files, evidence_is(EvidenceState::Unknown)) + count_listings(
            files,
            invalid_listing(),
        ) == count_listings(files, any_listing()),
        count_listings(files, passed_listing()) == count_listings(
            files,
            evidence_is(EvidenceState::Confirmed),
        ),
    decreases files.len(),
{
    if files.len() > 0 {
        let rest = files.drop_last();
        assert(classified_iff_valid(rest)) by {
            assert forall|f: int, k: int|
                0 <= f < rest.len() && 0 <= k < file_listings(rest[f]).len() implies {
                let l = #[trigger] file_listings(rest[f])[k];
                l.evidence is Some <==> l.issues.len() == 0
            } by {
                assert(rest[f] == files[f]);
                assert(file_listings(files[f])[k] == file_listings(rest[f])[k]);
            }
        }
        summary_counts_partition_the_listings(rest);
        let s = file_listings(files.last());
        assert forall|k: int| 0 <= k < s.len() implies ((#[trigger] s[k]).evidence is Some
            <==> s[k].issues.len() == 0) by {
            assert(file_listings(files[files.len() - 1])[k] == s[k]);
        }
        lemma_partition_one(s);
        lemma_filter_all(s);
    }
}

proof fn lemma_filter_all(s: Seq<ListingView>)
    ensures
        s.filter(any_listing()) == s,
    decreases s.len(),
{
    reveal_with_fuel(Seq::filter, 1);
    if s.len() > 0 {
        lemma_filter_all(s.drop_last());
        assert(s.drop_last().push(s.last()) =~= s);
    } else {
        assert(s.filter(any_listing()) =~= s);
    }
}

proof fn lemma_all_passed_filter(s: Seq<ListingView>)
    requires
        forall|k: int| 0 <= k < s.len() ==> (#[trigger] s[k]).passed(),
    ensures
        s.filter(passed_listing()) == s,
    decreases s.len(),
{
    reveal_with_fuel(Seq::filter, 1);
    if s.len() > 0 {
        lemma_all_passed_filter(s.drop_last());
        assert(s.drop_last().push(s.last()) =~= s);
    } else {
        assert(s.filter(passed_listing()) =~= s);
    }
}

proof fn lemma_passing_files(files: Seq<FileReport>)
    requires
        forall|i: int| 0 <= i < files.len() ==> file_passed(#[trigger] files[i]),
    ensures
        count_listings(files, passed_listing()) == count_listings(files, any_listing()),
        count_listings(files, any_listing()) >= files.len(),
        files.filter(|f: FileReport| file_error(f)).len() == 0,
    decreases files.len(),
{
    reveal_with_fuel(Seq::filter, 1);
    if files.len() > 0 {
        let rest = files.drop_last();
        assert forall|i: int| 0 <= i < rest.len() implies file_passed(#[trigger] rest[i]) by {
            assert(rest[i] == files[i]);
        }
        lemma_passing_files(rest);
        let last = files.last();
        assert(file_passed(files[files.len() - 1]));
        if let Ok(d) = last.result {
            let s = d@.listings;
            assert forall|k: int| 0 <= k < s.len() implies (#[trigger] s[k]).passed() by {}
            lemma_all_passed_filter(s);
            lemma_filter_all(s);
        }
    } else {
        assert(files.filter(|f: FileReport| file_error(f)) =~= files);
    }
}

/// A run exits with 0 only when every listing of every file passes, there is at least one
/// listing, and no file has an error of its own: the closing `Result: PASS` line agrees with
/// the counts above it.
pub proof fn passing_runs_pass_every_listing(files: Seq<FileReport>)
    requires
        exit_status(files) == 0,
    ensures
        count_listings(files, passed_listing()) == count_listings(files, any_listing()),
        count_listings(files, any_listing()) > 0,
        files.filter(|f: FileReport| file_error(f)).len() == 0,
{
    lemma_passing_files(files);
}

/// The exit code of a run over two nonempty lists of files is the larger of the exit codes of
/// the two lists on their own: an unreadable file anywhere gives 2, and a run passes only when
/// both parts pass.
pub proof fn exit_status_of_joined_runs(a: Seq<FileReport>, b: Seq<FileReport>)
    requires
        a.len() > 0,
        b.len() > 0,
    ensures
        exit_status(a + b) == if exit_status(a) >= exit_status(b) {
            exit_status(a)
        } else {
            exit_status(b)
        },
{
    let c = a + b;
    assert forall|i: int| 0 <= i < a.len() implies #[trigger] c[i] == a[i] by {}
    assert forall|i: int| 0 <= i < b.len() implies #[trigger] c[a.len() + i] == b[i] by {}
    if exists|i: int| 0 <= i < c.len() && io_failure(#[trigger] c[i]) {
        let i = choose|i: int| 0 <= i < c.len() && io_failure(#[trigger] c[i]);
        if i < a.len() {
            assert(io_failure(a[i]));
        } else {
            assert(c[a.len() + (i - a.len())] == b[i - a.len()]);
            assert(io_failure(b[i - a.len()]));
        }
    } else {
        assert forall|i: int| 0 <= i < a.len() implies !io_failure(#[trigger] a[i]) by {
            assert(c[i] == a[i]);
        }
        assert forall|i: int| 0 <= i < b.len() implies !io_failure(#[trigger] b[i]) by {
            assert(c[a.len() + i] == b[i]);
        }
        if forall|i: int| 0 <= i < c.len() ==> file_passed(#[trigger] c[i]) {
            assert forall|i: int| 0 <= i < a.len() implies file_passed(#[trigger] a[i]) by {
                assert(c[i] == a[i]);
            }
            assert forall|i: int| 0 <= i < b.len() implies file_passed(#[trigger] b[i]) by {
                assert(c[a.len() + i] == b[i]);
            }
        } else {
            let i = choose|i: int| 0 <= i < c.len() && !file_passed(#[trigger] c[i]);
            if i < a.len() {
                assert(!file_passed(a[i]));
            } else {
                assert(c[a.len() + (i - a.len())] == b[i - a.len()]);
                assert(!file_passed(b[i - a.len()]));
            }
        }
    }
}

/// Every member of `members` is named by one of `allowed`.
pub open spec fn names_within(members: Seq<(String, Json)>, allowed: Seq<Seq<char>>) -> bool {
    forall|k: int| 0 <= k < members.len() ==> allowed.contains(#[trigger] members[k].0@)
}

/// `value` is a string with something other than white space in it.
pub open spec fn nonblank_string(value: Option<Json>) -> bool {
    value matches Some(Json::String(t)) && trim(t@).len() > 0
}

/// The documented conditions for a listing that passes: an object with only the members `id`,
/// `property_type`, `location`, `asking_price` and `advertising_permission`; a nonblank `id`
/// and `location`; a `property_type` of exactly `Apartment`, `House` or `Land`; an
/// `asking_price` that is an integer from 1 to `u64::MAX`; and an `advertising_permission`
/// object with only `granted` and `source`, where `granted` is `true` and `source` is a
/// nonblank string.
pub open spec fn acceptable_listing(value: Json) -> bool {
    &&& value matches Json::Object(members) && names_within(
        members@,
        seq!["id"@, "property_type"@, "location"@, "asking_price"@, "advertising_permission"@],
    )
    &&& nonblank_string(value.field("id"@))
    &&& value.field("property_type"@) matches Some(Json::String(t)) && (t@ == "Apartment"@ || t@ == "House"@
        || t@ == "Land"@)
    &&& nonblank_string(value.field("location"@))
    &&& value.field("asking_price"@) matches Some(Json::Number(Number::Unsigned(price))) && price > 0
    &&& value.field("advertising_permission"@) matches Some(Json::Object(p)) && {
        &&& names_within(p@, seq!["granted"@, "source"@])
        &&& member(p@, "granted"@) == Some(Json::Bool(true))
        &&& nonblank_string(member(p@, "source"@))
    }
}

/// A list of member names has no name outside `allowed` exactly when every member is allowed.
pub proof fn no_unknown_names_exactly_when_all_allowed(members: Seq<(String, Json)>, allowed: Seq<Seq<char>>)
    ensures
        unknown_names(members, allowed).len() == 0 <==> names_within(members, allowed),
        forall|k: Seq<char>| #[trigger] unknown_names(members, allowed).contains(k) ==> !allowed.contains(k),
{
    let names = member_names(members);
    let keep = |k: Seq<char>| !allowed.contains(k);
    let f = names.filter(keep);
    text_order_is_total();
    f.lemma_sort_by_ensures(text_order());
    let s = f.sort_by(text_order());
    assert(unknown_names(members, allowed) == s);
    f.to_multiset_ensures();
    s.to_multiset_ensures();
    assert forall|k: Seq<char>| #[trigger] s.contains(k) implies !allowed.contains(k) by {
        assert(f.to_multiset().count(k) > 0);
        assert(f.contains(k));
        let j = choose|j: int| 0 <= j < f.len() && f[j] == k;
        names.lemma_filter_pred(keep, j);
    }
    if names_within(members, allowed) {
        if s.len() > 0 {
            assert(s.contains(s[0]));
            assert(f.contains(s[0]));
            names.lemma_filter_contains_rev(keep, s[0]);
            let k = choose|k: int| 0 <= k < names.len() && names[k] == s[0];
            assert(names[k] == members[k].0@);
            assert(allowed.contains(members[k].0@));
        }
    } else {
        let k = choose|k: int| 0 <= k < members.len() && !allowed.contains(#[trigger] members[k].0@);
        assert(names[k] == members[k].0@);
        names.lemma_filter_contains(keep, k);
        assert(s.to_multiset().count(names[k]) > 0);
    }
}

/// A listing passes exactly under the documented conditions, whatever its index.
pub proof fn listing_passes_exactly_when_acceptable(index: usize, value: Json)
    ensures
        listing_outcome(index, value).passed() <==> acceptable_listing(value),
{
    if let Json::Object(members) = value {
        no_unknown_names_exactly_when_all_allowed(members@, listing_fields());
        assert(listing_fields() =~= seq!["id"@, "property_type"@, "location"@, "asking_price"@, "advertising_permission"@]);
        if let Some(Json::Object(p)) = value.field("advertising_permission"@) {
            no_unknown_names_exactly_when_all_allowed(p@, permission_fields());
            assert(permission_fields() =~= seq!["granted"@, "source"@]);
        }
    }
}

/// No two records of `items` have the same nonblank identifier after trimming.
pub open spec fn distinct_ids(items: Seq<Json>) -> bool {
    forall|i: int, j: int|
        0 <= i < items.len() && 0 <= j < items.len() && i != j && nonblank_text(items[i], "id"@) is Some
            ==> #[trigger] nonblank_text(items[i], "id"@) != #[trigger] nonblank_text(items[j], "id"@)
}

/// A document passes exactly when it is a nonempty array, every record passes on its own, and
/// no two records share an identifier after trimming.
pub proof fn document_passes_exactly_when_listings_pass_with_distinct_ids(value: Json)
    ensures
        document_outcome(value).passed() <==> (value matches Json::Array(items) && {
            &&& items@.len() > 0
            &&& forall|i: int| 0 <= i < items@.len() ==> (#[trigger] listing_outcome(i as usize, items@[i])).passed()
            &&& distinct_ids(items@)
        }),
{
    if let Json::Array(items) = value {
        let s = items@;
        if s.len() > 0 {
            if document_outcome(value).passed() {
                assert forall|i: int| 0 <= i < s.len() implies (#[trigger] listing_outcome(i as usize, s[i])).passed() by {
                    assert(document_outcome(value).listings[i] == checked_listing(s, i));
                }
                assert forall|i: int, j: int|
                    0 <= i < s.len() && 0 <= j < s.len() && i != j && nonblank_text(s[i], "id"@) is Some
                    implies #[trigger] nonblank_text(s[i], "id"@) != #[trigger] nonblank_text(s[j], "id"@) by {
                    assert(document_outcome(value).listings[i] == checked_listing(s, i));
                    if nonblank_text(s[i], "id"@) == nonblank_text(s[j], "id"@) {
                        assert(shares_id(s, i));
                    }
                }
            }
            if (forall|i: int| 0 <= i < s.len() ==> (#[trigger] listing_outcome(i as usize, s[i])).passed())
                && distinct_ids(s) {
                assert forall|i: int| 0 <= i < document_outcome(value).listings.len() implies
                    (#[trigger] document_outcome(value).listings[i]).passed() by {
                    assert(document_outcome(value).listings[i] == checked_listing(s, i));
                    assert(listing_outcome(i as usize, s[i]).passed());
                    if shares_id(s, i) {
                        let j = choose|j: int| 0 <= j < s.len() && j != i && #[trigger] nonblank_text(s[j], "id"@)
                            == nonblank_text(s[i], "id"@);
                        assert(nonblank_text(s[i], "id"@) != nonblank_text(s[j], "id"@));
                    }
                }
            }
        }
    }
}

/// A record that is an object is named in its report by its identifier, trimmed, whenever that
/// is a string that is not blank, whatever other issues the record has; a record that is not
/// an object has no identifier.
pub proof fn reports_keep_the_trimmed_identifier(items: Seq<Json>, i: int)
    requires
        0 <= i < items.len(),
    ensures
        items[i].field("id"@) matches Some(Json::String(id)) ==> trim(id@).len() > 0
            ==> checked_listing(items, i).id == Some(trim(id@)),
        (items[i].field("id"@) matches Some(Json::String(id)) ==> trim(id@).len() == 0)
            ==> checked_listing(items, i).id is None,
{
}

/// A document that is not an array, or an empty array, has exactly one issue of its own, at
/// the root pointer, and no listings; a record that is not an object has exactly one issue, at
/// its own pointer, and no identifier or evidence.
pub proof fn documents_and_records_of_the_wrong_shape(value: Json, items: Seq<Json>, i: int)
    requires
        0 <= i < items.len(),
    ensures
        !(value is Array) ==> document_outcome(value).issues == seq![
            IssueView { path: seq![], message: "Expected an array of listings."@ },
        ] && document_outcome(value).listings.len() == 0,
        (value matches Json::Array(a) && a@.len() == 0) ==> document_outcome(value).issues == seq![
            IssueView { path: seq![], message: "Expected at least one listing."@ },
        ] && document_outcome(value).listings.len() == 0,
        !(items[i] is Object) ==> checked_listing(items, i).issues == seq![
            IssueView { path: record_path((i as usize) as nat), message: "Expected a listing object."@ },
        ] && checked_listing(items, i).id is None && checked_listing(items, i).evidence is None,
{
}

} // verus!
