//! Validation of a listing document and classification of each listing's recorded
//! advertising permission.
//!
//! A confirmed result describes the supplied data, not verified legal permission: unknown
//! information never counts as confirmed.

use vstd::prelude::*;
use crate::json::{Json, find_member, member, member_names, same_text};
use crate::order::{
    Ranked, lex_le, positions_in, ranked_before, ranked_sorted, sort_positions, sort_texts,
    text_order, text_views,
};
use crate::text::{
    chars_of, concat, decimal, pointer_token, push_char, push_decimal, push_pointer_token, trim,
    trimmed,
};

verus! {

// ---------------------------------------------------------------------------
// Reports
// ---------------------------------------------------------------------------

/// What the recorded advertising permission of a valid listing establishes.
#[derive(Debug, Clone, Copy, PartialEq, Eq, Structural)]
pub enum EvidenceState {
    /// Permission is explicitly granted and has a nonblank source.
    Confirmed,
    /// Permission is explicitly refused and has a nonblank source.
    Rejected,
    /// No decision, or no source, is recorded.
    Unknown,
}

impl EvidenceState {
    /// The name of the state.
    pub open spec fn name(self) -> Seq<char> {
        match self {
            EvidenceState::Confirmed => "Confirmed"@,
            EvidenceState::Rejected => "Rejected"@,
            EvidenceState::Unknown => "Unknown"@,
        }
    }

    /// The name of the state.
    pub fn as_str(self) -> (r: &'static str)
        ensures
            r@ == self.name(),
    {
        match self {
            EvidenceState::Confirmed => "Confirmed",
            EvidenceState::Rejected => "Rejected",
            EvidenceState::Unknown => "Unknown",
        }
    }
}

/// One problem found in a document.
#[derive(Debug, Clone, PartialEq, Eq)]
pub struct Issue {
    /// JSON Pointer to the invalid value; an empty pointer means the document root.
    pub path: String,
    pub message: String,
}

/// An issue as texts.
pub struct IssueView {
    pub path: Seq<char>,
    pub message: Seq<char>,
}

impl View for Issue {
    type V = IssueView;

    open spec fn view(&self) -> IssueView {
        IssueView { path: self.path@, message: self.message@ }
    }
}

/// The issues of a vector, as texts.
pub open spec fn issue_views(issues: Seq<Issue>) -> Seq<IssueView> {
    issues.map_values(|i: Issue| i@)
}

/// The outcome for one record of the document.
#[derive(Debug, Clone, PartialEq, Eq)]
pub struct ListingReport {
    pub index: usize,
    pub id: Option<String>,
    pub issues: Vec<Issue>,
    /// Invalid listings have no evidence classification.
    pub evidence: Option<EvidenceState>,
    pub reason: String,
}

/// A listing report as texts.
pub struct ListingView {
    pub index: usize,
    pub id: Option<Seq<char>>,
    pub issues: Seq<IssueView>,
    pub evidence: Option<EvidenceState>,
    pub reason: Seq<char>,
}

impl ListingView {
    /// A listing passes when it is valid and its evidence is confirmed.
    pub open spec fn passed(self) -> bool {
        self.issues.len() == 0 && self.evidence == Some(EvidenceState::Confirmed)
    }
}

/// An optional string as an optional text.
pub open spec fn opt_text(s: Option<String>) -> Option<Seq<char>> {
    match s {
        Some(t) => Some(t@),
        None => None,
    }
}

impl View for ListingReport {
    type V = ListingView;

    open spec fn view(&self) -> ListingView {
        ListingView {
            index: self.index,
            id: opt_text(self.id),
            issues: issue_views(self.issues@),
            evidence: self.evidence,
            reason: self.reason@,
        }
    }
}

impl ListingReport {
    /// A listing passes when it has no issue and its evidence is confirmed.
    pub fn passed(&self) -> (r: bool)
        ensures
            r == self@.passed(),
    {
        self.issues.len() == 0 && match self.evidence {
            Some(EvidenceState::Confirmed) => true,
            _ => false,
        }
    }
}

/// The outcome for a whole document.
#[derive(Debug, Clone, PartialEq, Eq)]
pub struct DocumentReport {
    /// Issues of the document itself, such as a root that is not an array.
    pub issues: Vec<Issue>,
    pub listings: Vec<ListingReport>,
}

/// A document report as texts.
pub struct DocumentView {
    pub issues: Seq<IssueView>,
    pub listings: Seq<ListingView>,
}

impl DocumentView {
    /// A document passes when it has no issue of its own, holds at least one listing, and
    /// every listing passes.
    pub open spec fn passed(self) -> bool {
        &&& self.issues.len() == 0
        &&& self.listings.len() > 0
        &&& forall|i: int| 0 <= i < self.listings.len() ==> (#[trigger] self.listings[i]).passed()
    }
}

/// The listing reports of a vector, as views.
pub open spec fn listing_views(listings: Seq<ListingReport>) -> Seq<ListingView> {
    listings.map_values(|l: ListingReport| l@)
}

impl View for DocumentReport {
    type V = DocumentView;

    open spec fn view(&self) -> DocumentView {
        DocumentView { issues: issue_views(self.issues@), listings: listing_views(self.listings@) }
    }
}

impl DocumentReport {
    /// Only a nonempty document of valid listings with confirmed evidence passes.
    pub fn passed(&self) -> (r: bool)
        ensures
            r == self@.passed(),
    {
        if self.issues.len() != 0 || self.listings.len() == 0 {
            return false;
        }
        let mut i: usize = 0;
        while i < self.listings.len()
            invariant
                i <= self.listings@.len(),
                forall|k: int| 0 <= k < i ==> (#[trigger] self.listings@[k])@.passed(),
            decreases self.listings.len() - i,
        {
            if !self.listings[i].passed() {
                assert(self@.listings[i as int] == self.listings@[i as int]@);
                return false;
            }
            i += 1;
        }
        assert forall|k: int| 0 <= k < self@.listings.len() implies (#[trigger] self@.listings[k]).passed() by {
            assert(self@.listings[k] == self.listings@[k]@);
        }
        true
    }
}

/// An issue at `path` with `message`.
pub fn issue(path: &str, message: &str) -> (r: Issue)
    ensures
        r@ == (IssueView { path: path@, message: message@ }),
{
    Issue { path: String::from_str(path), message: String::from_str(message) }
}

// ---------------------------------------------------------------------------
// What validation yields
// ---------------------------------------------------------------------------

/// The reason given for every listing that has an issue.
pub open spec fn invalid_reason() -> Seq<char> {
    "Listing contains validation errors."@
}

/// The JSON Pointer of the record at `index`.
pub open spec fn record_path(index: nat) -> Seq<char> {
    seq!['/'] + decimal(index)
}

/// The JSON Pointer of the member `name` of the value at `base`, for a name that needs no
/// escaping.
pub open spec fn field_path(base: Seq<char>, name: Seq<char>) -> Seq<char> {
    base + seq!['/'] + name
}

/// The trimmed text of the member `name` of `value`, where it is a string that is not blank.
pub open spec fn nonblank_text(value: Json, name: Seq<char>) -> Option<Seq<char>> {
    match value.field(name) {
        Some(v) => match v.text() {
            Some(t) => if trim(t).len() > 0 {
                Some(trim(t))
            } else {
                None
            },
            None => None,
        },
        None => None,
    }
}

/// The issue for a member `name` of `value` that is not a nonblank string.
pub open spec fn text_issues(value: Json, name: Seq<char>, base: Seq<char>) -> Seq<IssueView> {
    if nonblank_text(value, name) is Some {
        seq![]
    } else {
        seq![IssueView { path: field_path(base, name), message: "Expected a nonblank string."@ }]
    }
}

/// The property type is exactly one of `Apartment`, `House` and `Land`.
pub open spec fn property_type_ok(value: Json) -> bool {
    match value.field("property_type"@) {
        Some(v) => match v.text() {
            Some(t) => t == "Apartment"@ || t == "House"@ || t == "Land"@,
            None => false,
        },
        None => false,
    }
}

/// The issue for a property type outside that set.
pub open spec fn property_type_issues(value: Json, base: Seq<char>) -> Seq<IssueView> {
    if property_type_ok(value) {
        seq![]
    } else {
        seq![
            IssueView {
                path: field_path(base, "property_type"@),
                message: "Expected one of: Apartment, House, Land."@,
            },
        ]
    }
}

/// The asking price is a positive integer that fits in a `u64`.
pub open spec fn price_ok(value: Json) -> bool {
    match value.field("asking_price"@) {
        Some(v) => match v.unsigned() {
            Some(p) => p > 0,
            None => false,
        },
        None => false,
    }
}

/// The issue for an asking price that is not such an integer.
pub open spec fn price_issues(value: Json, base: Seq<char>) -> Seq<IssueView> {
    if price_ok(value) {
        seq![]
    } else {
        seq![
            IssueView {
                path: field_path(base, "asking_price"@),
                message: "Expected a positive integer representable as u64."@,
            },
        ]
    }
}

/// The members a listing may have.
pub open spec fn listing_fields() -> Seq<Seq<char>> {
    seq!["id"@, "property_type"@, "location"@, "asking_price"@, "advertising_permission"@]
}

/// The members an advertising permission may have.
pub open spec fn permission_fields() -> Seq<Seq<char>> {
    seq!["granted"@, "source"@]
}

/// The names of members outside `allowed`, in lexicographic order.
pub open spec fn unknown_names(members: Seq<(String, Json)>, allowed: Seq<Seq<char>>) -> Seq<Seq<char>> {
    member_names(members).filter(|k: Seq<char>| !allowed.contains(k)).sort_by(text_order())
}

/// The issue for a member `name` that is not supported at `base`.
pub open spec fn unsupported_issue(base: Seq<char>, name: Seq<char>) -> IssueView {
    IssueView { path: base + seq!['/'] + pointer_token(name), message: "Unsupported field."@ }
}

/// One issue for each member outside `allowed`, in lexicographic order of their names.
pub open spec fn unknown_field_issues(
    members: Seq<(String, Json)>,
    allowed: Seq<Seq<char>>,
    base: Seq<char>,
) -> Seq<IssueView> {
    unknown_names(members, allowed).map_values(|k: Seq<char>| unsupported_issue(base, k))
}

/// What the advertising permission yields.
pub struct PermissionView {
    pub evidence: EvidenceState,
    pub reason: Seq<char>,
    pub issues: Seq<IssueView>,
}

/// The recorded decision: a boolean `granted`.
pub open spec fn granted_of(members: Seq<(String, Json)>) -> Option<bool> {
    match member(members, "granted"@) {
        Some(Json::Bool(b)) => Some(b),
        _ => None,
    }
}

/// The recorded source: the trimmed text of a string `source`.
pub open spec fn source_of(members: Seq<(String, Json)>) -> Option<Seq<char>> {
    match member(members, "source"@) {
        Some(Json::String(s)) => Some(trim(s@)),
        _ => None,
    }
}

/// The issues of `granted` and `source`: each must be absent, null, or of its type.
pub open spec fn permission_member_issues(members: Seq<(String, Json)>, base: Seq<char>) -> Seq<IssueView> {
    let granted = match member(members, "granted"@) {
        None => seq![],
        Some(Json::Null) => seq![],
        Some(Json::Bool(_)) => seq![],
        Some(_) => seq![
            IssueView { path: field_path(base, "granted"@), message: "Expected a boolean or null."@ },
        ],
    };
    let source = match member(members, "source"@) {
        None => seq![],
        Some(Json::Null) => seq![],
        Some(Json::String(_)) => seq![],
        Some(_) => seq![
            IssueView { path: field_path(base, "source"@), message: "Expected a string or null."@ },
        ],
    };
    granted + source
}

/// The evidence that a permission object establishes: confirmed or rejected only with an
/// explicit decision and a nonblank source, unknown otherwise.
pub open spec fn decision(members: Seq<(String, Json)>) -> (EvidenceState, Seq<char>) {
    match granted_of(members) {
        None => (EvidenceState::Unknown, "No explicit permission decision supplied."@),
        Some(granted) => match source_of(members) {
            Some(source) => if source.len() == 0 {
                (EvidenceState::Unknown, "No nonblank permission source supplied."@)
            } else if granted {
                (EvidenceState::Confirmed, "Permission is explicitly granted and includes a source."@)
            } else {
                (EvidenceState::Rejected, "Permission is explicitly refused and includes a source."@)
            },
            None => (EvidenceState::Unknown, "No nonblank permission source supplied."@),
        },
    }
}

/// What the member `advertising_permission` (if any) yields; `base` is its JSON Pointer.
pub open spec fn permission_outcome(value: Option<Json>, base: Seq<char>) -> PermissionView {
    match value {
        None => PermissionView {
            evidence: EvidenceState::Unknown,
            reason: "No advertising permission supplied."@,
            issues: seq![],
        },
        Some(Json::Null) => PermissionView {
            evidence: EvidenceState::Unknown,
            reason: "No advertising permission supplied."@,
            issues: seq![],
        },
        Some(Json::Object(members)) => PermissionView {
            evidence: decision(members@).0,
            reason: decision(members@).1,
            issues: permission_member_issues(members@, base) + unknown_field_issues(
                members@,
                permission_fields(),
                base,
            ),
        },
        Some(_) => PermissionView {
            evidence: EvidenceState::Unknown,
            reason: "Invalid advertising permission."@,
            issues: seq![IssueView { path: base, message: "Expected an object or null."@ }],
        },
    }
}

/// The issues of a listing object, in the order in which they are reported.
pub open spec fn listing_issues(value: Json, members: Seq<(String, Json)>, base: Seq<char>) -> Seq<IssueView> {
    text_issues(value, "id"@, base) + property_type_issues(value, base) + text_issues(
        value,
        "location"@,
        base,
    ) + price_issues(value, base) + permission_outcome(
        value.field("advertising_permission"@),
        field_path(base, "advertising_permission"@),
    ).issues + unknown_field_issues(members, listing_fields(), base)
}

/// The report for the record `value` at `index`, before identifiers are compared across
/// records.
pub open spec fn listing_outcome(index: usize, value: Json) -> ListingView {
    let base = record_path(index as nat);
    match value {
        Json::Object(members) => {
            let issues = listing_issues(value, members@, base);
            let permission = permission_outcome(
                value.field("advertising_permission"@),
                field_path(base, "advertising_permission"@),
            );
            ListingView {
                index,
                id: nonblank_text(value, "id"@),
                issues,
                evidence: if issues.len() == 0 {
                    Some(permission.evidence)
                } else {
                    None
                },
                reason: if issues.len() == 0 {
                    permission.reason
                } else {
                    invalid_reason()
                },
            }
        },
        _ => ListingView {
            index,
            id: None,
            issues: seq![IssueView { path: base, message: "Expected a listing object."@ }],
            evidence: None,
            reason: invalid_reason(),
        },
    }
}

/// The record at `i` has a nonblank identifier that, after trimming, another record has too.
pub open spec fn shares_id(items: Seq<Json>, i: int) -> bool {
    &&& nonblank_text(items[i], "id"@) is Some
    &&& exists|j: int|
        0 <= j < items.len() && j != i && #[trigger] nonblank_text(items[j], "id"@)
            == nonblank_text(items[i], "id"@)
}

/// The issue for a shared identifier.
pub open spec fn duplicate_issue(index: nat, id: Seq<char>) -> IssueView {
    IssueView {
        path: field_path(record_path(index), "id"@),
        message: "Duplicate listing ID: "@ + id + "."@,
    }
}

/// The report for the record at `i` of `items`: every record whose identifier another record
/// shares is invalid.
pub open spec fn checked_listing(items: Seq<Json>, i: int) -> ListingView {
    let l = listing_outcome(i as usize, items[i]);
    if shares_id(items, i) {
        ListingView {
            index: l.index,
            id: l.id,
            issues: l.issues.push(duplicate_issue(i as nat, nonblank_text(items[i], "id"@)->0)),
            evidence: None,
            reason: invalid_reason(),
        }
    } else {
        l
    }
}

/// The report for a document: it must be a nonempty array, and each of its records is
/// reported on, whatever the others hold.
pub open spec fn document_outcome(value: Json) -> DocumentView {
    match value {
        Json::Array(items) => if items@.len() == 0 {
            DocumentView {
                issues: seq![IssueView { path: seq![], message: "Expected at least one listing."@ }],
                listings: seq![],
            }
        } else {
            DocumentView {
                issues: seq![],
                listings: Seq::new(items@.len(), |i: int| checked_listing(items@, i)),
            }
        },
        _ => DocumentView {
            issues: seq![IssueView { path: seq![], message: "Expected an array of listings."@ }],
            listings: seq![],
        },
    }
}

// ---------------------------------------------------------------------------
// Validation
// ---------------------------------------------------------------------------

/// An optional reference as an optional value.
pub open spec fn opt_json(v: Option<&Json>) -> Option<Json> {
    match v {
        Some(x) => Some(*x),
        None => None,
    }
}

/// The texts of a list of names.
pub open spec fn name_list(names: Seq<&str>) -> Seq<Seq<char>> {
    names.map_values(|s: &str| s@)
}

/// The JSON Pointer of member `name` of the value at `base`.
fn field_path_of(base: &str, name: &str) -> (r: String)
    ensures
        r@ == field_path(base@, name@),
{
    let mut r = String::from_str(base);
    push_char(&mut r, '/');
    r.append(name);
    r
}

/// Appends `item` to `issues`.
fn add_issue(issues: &mut Vec<Issue>, item: Issue)
    ensures
        issue_views(final(issues)@) == issue_views(old(issues)@).push(item@),
{
    issues.push(item);
    assert(issue_views(issues@) =~= issue_views(old(issues)@).push(item@));
}

/// The trimmed member `field` of the listing, which must be a nonblank string; an issue is
/// added otherwise.
fn required_text(listing: &Json, field: &str, base: &str, issues: &mut Vec<Issue>) -> (r: Option<String>)
    ensures
        opt_text(r) == nonblank_text(*listing, field@),
        issue_views(final(issues)@) == issue_views(old(issues)@) + text_issues(*listing, field@, base@),
{
    if let Some(v) = listing.get(field) {
        if let Some(t) = v.as_str() {
            let text = trimmed(t.as_str());
            if !text.as_str().is_empty() {
                assert(issue_views(issues@) =~= issue_views(issues@) + Seq::<IssueView>::empty());
                return Some(text);
            }
        }
    }
    let path = field_path_of(base, field);
    add_issue(issues, issue(path.as_str(), "Expected a nonblank string."));
    assert(issue_views(issues@) =~= issue_views(old(issues)@) + text_issues(*listing, field@, base@));
    None
}

/// Adds an issue unless the property type is one of `Apartment`, `House` and `Land`.
fn check_property_type(listing: &Json, base: &str, issues: &mut Vec<Issue>)
    ensures
        issue_views(final(issues)@) == issue_views(old(issues)@) + property_type_issues(*listing, base@),
{
    if let Some(v) = listing.get("property_type") {
        if let Some(t) = v.as_str() {
            if same_text(t.as_str(), "Apartment") || same_text(t.as_str(), "House") || same_text(
                t.as_str(),
                "Land",
            ) {
                assert(issue_views(issues@) =~= issue_views(issues@) + Seq::<IssueView>::empty());
                return;
            }
        }
    }
    let path = field_path_of(base, "property_type");
    add_issue(issues, issue(path.as_str(), "Expected one of: Apartment, House, Land."));
    assert(issue_views(issues@) =~= issue_views(old(issues)@) + property_type_issues(*listing, base@));
}

/// Adds an issue unless the asking price is a positive integer that fits in a `u64`.
fn check_price(listing: &Json, base: &str, issues: &mut Vec<Issue>)
    ensures
        issue_views(final(issues)@) == issue_views(old(issues)@) + price_issues(*listing, base@),
{
    if let Some(v) = listing.get("asking_price") {
        if let Some(price) = v.as_u64() {
            if price > 0 {
                assert(issue_views(issues@) =~= issue_views(issues@) + Seq::<IssueView>::empty());
                return;
            }
        }
    }
    let path = field_path_of(base, "asking_price");
    add_issue(issues, issue(path.as_str(), "Expected a positive integer representable as u64."));
    assert(issue_views(issues@) =~= issue_views(old(issues)@) + price_issues(*listing, base@));
}

/// Whether `name` is one of `allowed`.
fn is_allowed(name: &str, allowed: &[&str]) -> (r: bool)
    ensures
        r == name_list(allowed@).contains(name@),
{
    let mut i: usize = 0;
    while i < allowed.len()
        invariant
            i <= allowed@.len(),
            forall|k: int| 0 <= k < i ==> name_list(allowed@)[k] != name@,
        decreases allowed.len() - i,
    {
        if same_text(name, allowed[i]) {
            assert(name_list(allowed@)[i as int] == name@);
            return true;
        }
        i += 1;
    }
    false
}

/// Adds an "Unsupported field." issue for each member outside `allowed`, in lexicographic
/// order of their names; each path escapes the name as a JSON Pointer token.
fn reject_unknown_fields(
    members: &Vec<(String, Json)>,
    allowed: &[&str],
    base: &str,
    issues: &mut Vec<Issue>,
)
    ensures
        issue_views(final(issues)@) == issue_views(old(issues)@) + unknown_field_issues(
            members@,
            name_list(allowed@),
            base@,
        ),
{
    let ghost names = member_names(members@);
    let ghost keep = |k: Seq<char>| !name_list(allowed@).contains(k);
    let mut unknown: Vec<Vec<char>> = Vec::new();
    let mut i: usize = 0;
    assert(names.take(0).filter(keep) =~= Seq::<Seq<char>>::empty());
    while i < members.len()
        invariant
            i <= members@.len(),
            names == member_names(members@),
            keep == (|k: Seq<char>| !name_list(allowed@).contains(k)),
            text_views(unknown@) == names.take(i as int).filter(keep),
        decreases members.len() - i,
    {
        let name = members[i].0.as_str();
        assert(names.take(i + 1) =~= names.take(i as int).push(names[i as int]));
        proof {
            names.take(i as int).lemma_filter_push(names[i as int], keep);
        }
        if !is_allowed(name, allowed) {
            let ghost before = unknown@;
            unknown.push(chars_of(name));
            assert(text_views(unknown@) =~= text_views(before).push(name@));
        }
        i += 1;
    }
    assert(names.take(members@.len() as int) =~= names);
    let sorted = sort_texts(unknown);
    let ghost target = unknown_names(members@, name_list(allowed@));
    assert(text_views(sorted@) == target);
    let mut j: usize = 0;
    while j < sorted.len()
        invariant
            j <= sorted@.len(),
            text_views(sorted@) == target,
            issue_views(issues@) == issue_views(old(issues)@) + target.take(j as int).map_values(
                |k: Seq<char>| unsupported_issue(base@, k),
            ),
        decreases sorted.len() - j,
    {
        let mut path = String::from_str(base);
        push_char(&mut path, '/');
        push_pointer_token(&mut path, &sorted[j]);
        let ghost before = issue_views(issues@);
        let item = issue(path.as_str(), "Unsupported field.");
        assert(target[j as int] == sorted@[j as int]@);
        assert(item@.path =~= unsupported_issue(base@, target[j as int]).path);
        add_issue(issues, item);
        assert(target.take(j + 1).map_values(|k: Seq<char>| unsupported_issue(base@, k))
            =~= target.take(j as int).map_values(|k: Seq<char>| unsupported_issue(base@, k)).push(
            unsupported_issue(base@, target[j as int]),
        ));
        j += 1;
    }
    assert(target.take(sorted@.len() as int) =~= target);
}

/// Classifies the member `advertising_permission` (if any) of a listing; `base` is its JSON
/// Pointer. Issues are added for a value that is neither an object nor null, for `granted`
/// and `source` of the wrong type, and for unsupported members.
fn validate_permission(value: Option<&Json>, base: &str, issues: &mut Vec<Issue>) -> (r: (EvidenceState, String))
    ensures
        r.0 == permission_outcome(opt_json(value), base@).evidence,
        r.1@ == permission_outcome(opt_json(value), base@).reason,
        issue_views(final(issues)@) == issue_views(old(issues)@) + permission_outcome(
            opt_json(value),
            base@,
        ).issues,
{
    let permission = match value {
        None => {
            assert(issue_views(issues@) =~= issue_views(issues@) + Seq::<IssueView>::empty());
            return (EvidenceState::Unknown, String::from_str("No advertising permission supplied."));
        },
        Some(Json::Null) => {
            assert(issue_views(issues@) =~= issue_views(issues@) + Seq::<IssueView>::empty());
            return (EvidenceState::Unknown, String::from_str("No advertising permission supplied."));
        },
        Some(Json::Object(permission)) => permission,
        Some(_) => {
            add_issue(issues, issue(base, "Expected an object or null."));
            assert(issue_views(issues@) =~= issue_views(old(issues)@) + permission_outcome(
                opt_json(value),
                base@,
            ).issues);
            return (EvidenceState::Unknown, String::from_str("Invalid advertising permission."));
        },
    };
    let ghost members = permission@;
    let granted: Option<bool> = match find_member(permission, "granted") {
        None => None,
        Some(Json::Null) => None,
        Some(Json::Bool(granted)) => Some(*granted),
        Some(_) => {
            let path = field_path_of(base, "granted");
            add_issue(issues, issue(path.as_str(), "Expected a boolean or null."));
            None
        },
    };
    let ghost after_granted = issue_views(issues@);
    let source: Option<String> = match find_member(permission, "source") {
        None => None,
        Some(Json::Null) => None,
        Some(Json::String(source)) => Some(trimmed(source.as_str())),
        Some(_) => {
            let path = field_path_of(base, "source");
            add_issue(issues, issue(path.as_str(), "Expected a string or null."));
            None
        },
    };
    assert(issue_views(issues@) =~= issue_views(old(issues)@) + permission_member_issues(members, base@));
    let allowed: [&str; 2] = ["granted", "source"];
    assert(name_list(allowed@) =~= permission_fields());
    reject_unknown_fields(permission, &allowed, base, issues);
    assert(issue_views(issues@) =~= issue_views(old(issues)@) + permission_outcome(
        opt_json(value),
        base@,
    ).issues);
    assert(granted == granted_of(members));
    assert(opt_text(source) == source_of(members));
    match granted {
        None => (EvidenceState::Unknown, String::from_str("No explicit permission decision supplied.")),
        Some(granted) => match source {
            None => (EvidenceState::Unknown, String::from_str("No nonblank permission source supplied.")),
            Some(source) => if source.as_str().is_empty() {
                (EvidenceState::Unknown, String::from_str("No nonblank permission source supplied."))
            } else if granted {
                (
                    EvidenceState::Confirmed,
                    String::from_str("Permission is explicitly granted and includes a source."),
                )
            } else {
                (
                    EvidenceState::Rejected,
                    String::from_str("Permission is explicitly refused and includes a source."),
                )
            },
        },
    }
}

/// The JSON Pointer of the record at `index`.
fn record_path_of(index: usize) -> (r: String)
    ensures
        r@ == record_path(index as nat),
{
    let mut r = String::new();
    push_char(&mut r, '/');
    push_decimal(&mut r, index as u128);
    r
}

/// Validates the record at `index`, collecting every issue rather than stopping at the first.
/// A listing with issues has no evidence classification.
pub fn validate_listing(index: usize, value: &Json) -> (r: ListingReport)
    ensures
        r@ == listing_outcome(index, *value),
{
    let base = record_path_of(index);
    let members = match value.as_object() {
        Some(members) => members,
        None => {
            let mut issues: Vec<Issue> = Vec::new();
            add_issue(&mut issues, issue(base.as_str(), "Expected a listing object."));
            let r = ListingReport {
                index,
                id: None,
                issues,
                evidence: None,
                reason: String::from_str("Listing contains validation errors."),
            };
            assert(r@.issues =~= listing_outcome(index, *value).issues);
            return r;
        },
    };
    let mut issues: Vec<Issue> = Vec::new();
    assert(issue_views(issues@) =~= Seq::<IssueView>::empty());
    let id = required_text(value, "id", base.as_str(), &mut issues);
    check_property_type(value, base.as_str(), &mut issues);
    required_text(value, "location", base.as_str(), &mut issues);
    check_price(value, base.as_str(), &mut issues);
    let permission_path = field_path_of(base.as_str(), "advertising_permission");
    let (evidence, reason) = validate_permission(
        value.get("advertising_permission"),
        permission_path.as_str(),
        &mut issues,
    );
    let allowed: [&str; 5] = ["id", "property_type", "location", "asking_price", "advertising_permission"];
    assert(name_list(allowed@) =~= listing_fields());
    reject_unknown_fields(members, &allowed, base.as_str(), &mut issues);
    assert(issue_views(issues@) =~= listing_issues(*value, members@, base@));
    if issues.len() == 0 {
        ListingReport { index, id, issues, evidence: Some(evidence), reason }
    } else {
        ListingReport {
            index,
            id,
            issues,
            evidence: None,
            reason: String::from_str("Listing contains validation errors."),
        }
    }
}

/// The trimmed identifier of a record, where it has a nonblank string `id`.
fn listing_id(value: &Json) -> (r: Option<String>)
    ensures
        opt_text(r) == nonblank_text(*value, "id"@),
{
    if let Some(v) = value.get("id") {
        if let Some(t) = v.as_str() {
            let text = trimmed(t.as_str());
            if !text.as_str().is_empty() {
                return Some(text);
            }
        }
    }
    None
}

/// The identifier at `i` is present, and present at another position too.
pub open spec fn shared_id_at(ids: Seq<Option<String>>, i: int) -> bool {
    &&& opt_text(ids[i]) is Some
    &&& exists|j: int| 0 <= j < ids.len() && j != i && #[trigger] opt_text(ids[j]) == opt_text(ids[i])
}

/// For each position, whether its identifier is present and present at another position
/// too. Identifiers are sorted (by a merge sort), so that equal ones are neighbours.
fn shared_ids(ids: &Vec<Option<String>>) -> (r: Vec<bool>)
    ensures
        r@.len() == ids@.len(),
        forall|i: int| 0 <= i < ids@.len() ==> #[trigger] r@[i] == shared_id_at(ids@, i),
{
    let n = ids.len();
    let mut keys: Vec<Vec<char>> = Vec::new();
    let mut present: Vec<usize> = Vec::new();
    let mut i: usize = 0;
    while i < n
        invariant
            n == ids@.len(),
            i <= n,
            keys@.len() == i,
            forall|k: int| 0 <= k < i ==> ((#[trigger] opt_text(ids@[k])) matches Some(t) ==> keys@[k]@ == t),
            forall|p: int| 0 <= p < present@.len() ==> #[trigger] present@[p] < i,
            forall|p: int, q: int| 0 <= p < q < present@.len() ==> #[trigger] present@[p] < #[trigger] present@[q],
            forall|x: usize| #[trigger] present@.contains(x) <==> x < i && opt_text(ids@[x as int]) is Some,
        decreases n - i,
    {
        match &ids[i] {
            Some(id) => {
                keys.push(chars_of(id.as_str()));
                let ghost before = present@;
                present.push(i);
                assert forall|x: usize| #[trigger] present@.contains(x) <==> x < i + 1 && opt_text(ids@[x as int]) is Some by {
                    if present@.contains(x) {
                        let p = choose|p: int| 0 <= p < present@.len() && present@[p] == x;
                        if p < before.len() {
                            assert(before.contains(x));
                        }
                    }
                    if x < i && opt_text(ids@[x as int]) is Some {
                        assert(before.contains(x));
                        let p = choose|p: int| 0 <= p < before.len() && before[p] == x;
                        assert(present@[p] == x);
                    }
                    if x == i {
                        assert(present@[before.len() as int] == x);
                    }
                }
            },
            None => {
                keys.push(Vec::new());
            },
        }
        i += 1;
    }
    assert(present@.no_duplicates()) by {
        assert forall|a: int, b: int| 0 <= a < present@.len() && 0 <= b < present@.len() && a != b
            implies present@[a] != present@[b] by {
            if a < b {
                assert(present@[a] < present@[b]);
            } else {
                assert(present@[b] < present@[a]);
            }
        }
    }
    let sorted = sort_positions(&keys, present);
    let ghost sv = sorted@;
    let ghost ks = keys@;
    // Whether the position at `p` of `sorted` has a neighbour with the same key.
    let ghost nb = |p: int| {
        ||| p > 0 && ks[sv[p - 1] as int].rank() == ks[sv[p] as int].rank()
        ||| p + 1 < sv.len() && ks[sv[p + 1] as int].rank() == ks[sv[p] as int].rank()
    };
    let mut flags: Vec<bool> = Vec::new();
    let mut k: usize = 0;
    while k < n
        invariant
            k <= n,
            flags@.len() == k,
            forall|x: int| 0 <= x < k ==> !(#[trigger] flags@[x]),
        decreases n - k,
    {
        flags.push(false);
        k += 1;
    }
    let mut p: usize = 0;
    while p < sorted.len()
        invariant
            n == ids@.len(),
            n == keys@.len(),
            sv == sorted@,
            ks == keys@,
            p <= sv.len(),
            flags@.len() == n,
            positions_in(ks, sv),
            ranked_sorted(ks, sv),
            nb == (|q: int| {
                ||| q > 0 && ks[sv[q - 1] as int].rank() == ks[sv[q] as int].rank()
                ||| q + 1 < sv.len() && ks[sv[q + 1] as int].rank() == ks[sv[q] as int].rank()
            }),
            forall|q: int| 0 <= q < p ==> flags@[#[trigger] sv[q] as int] == nb(q),
            forall|x: int| 0 <= x < n && (forall|q: int| 0 <= q < p ==> #[trigger] sv[q] != x) ==> !flags@[x],
        decreases sv.len() - p,
    {
        let x = sorted[p];
        let mut flag = false;
        if p > 0 {
            let y = sorted[p - 1];
            if keys[y].rank_le(&keys[x]) && keys[x].rank_le(&keys[y]) {
                flag = true;
            }
        }
        if p + 1 < sorted.len() {
            let y = sorted[p + 1];
            if keys[y].rank_le(&keys[x]) && keys[x].rank_le(&keys[y]) {
                flag = true;
            }
        }
        proof {
            if p > 0 {
                let y = sv[p - 1];
                if ks[y as int].rank() == ks[x as int].rank() {
                    crate::order::lemma_lex_reflexive(ks[x as int].rank());
                }
                if lex_le(ks[y as int].rank(), ks[x as int].rank()) && lex_le(ks[x as int].rank(), ks[y as int].rank()) {
                    crate::order::lemma_lex_antisymmetric(ks[y as int].rank(), ks[x as int].rank());
                }
            }
            if p + 1 < sv.len() {
                let y = sv[p + 1];
                if ks[y as int].rank() == ks[x as int].rank() {
                    crate::order::lemma_lex_reflexive(ks[x as int].rank());
                }
                if lex_le(ks[y as int].rank(), ks[x as int].rank()) && lex_le(ks[x as int].rank(), ks[y as int].rank()) {
                    crate::order::lemma_lex_antisymmetric(ks[y as int].rank(), ks[x as int].rank());
                }
            }
            assert(flag == nb(p as int));
        }
        let ghost before = flags@;
        flags.set(x, flag);
        proof {
            assert forall|q: int| 0 <= q < p + 1 implies flags@[#[trigger] sv[q] as int] == nb(q) by {
                if q < p {
                    assert(ranked_before(ks, sv[q], sv[p as int]));
                    assert(sv[q] != x);
                }
            }
            assert forall|y: int| 0 <= y < n && (forall|q: int| 0 <= q < p + 1 ==> #[trigger] sv[q] != y)
                implies !flags@[y] by {
                assert(sv[p as int] != y);
                assert forall|q: int| 0 <= q < p implies #[trigger] sv[q] != y by {
                    assert(sv[q] != y);
                }
            }
        }
        p += 1;
    }
    proof {
        assert forall|i: int| 0 <= i < ids@.len() implies #[trigger] flags@[i] == shared_id_at(ids@, i) by {
            if opt_text(ids@[i]) is Some {
                assert(sv.contains(i as usize));
                let pi = choose|pi: int| 0 <= pi < sv.len() && sv[pi] == i as usize;
                assert(flags@[sv[pi] as int] == nb(pi));
                if nb(pi) {
                    let q = if pi > 0 && ks[sv[pi - 1] as int].rank() == ks[sv[pi] as int].rank() {
                        pi - 1
                    } else {
                        pi + 1
                    };
                    let j = sv[q] as int;
                    assert(ranked_before(ks, sv[pi], sv[q]) || ranked_before(ks, sv[q], sv[pi]));
                    assert(sv.contains(sv[q]));
                    assert(opt_text(ids@[j]) is Some);
                    crate::order::lemma_char_codes_injective(ks[j]@, ks[i]@);
                    assert(opt_text(ids@[j]) == opt_text(ids@[i]));
                    assert(shared_id_at(ids@, i));
                }
                if shared_id_at(ids@, i) {
                    let j = choose|j: int| 0 <= j < ids@.len() && j != i && #[trigger] opt_text(ids@[j]) == opt_text(ids@[i]);
                    assert(sv.contains(j as usize));
                    let pj = choose|pj: int| 0 <= pj < sv.len() && sv[pj] == j as usize;
                    assert(ks[j]@ == ks[i]@);
                    if pj > pi {
                        let m = pi + 1;
                        crate::order::lemma_before_ranks(ks, sv[pi], sv[m]);
                        if m < pj {
                            crate::order::lemma_before_ranks(ks, sv[m], sv[pj]);
                        } else {
                            crate::order::lemma_lex_reflexive(ks[j]@.map_values(|c: char| c as int));
                        }
                        crate::order::lemma_lex_antisymmetric(ks[sv[pi] as int].rank(), ks[sv[m] as int].rank());
                        assert(nb(pi));
                    } else {
                        assert(pj < pi);
                        let m = pi - 1;
                        crate::order::lemma_before_ranks(ks, sv[m], sv[pi]);
                        if pj < m {
                            crate::order::lemma_before_ranks(ks, sv[pj], sv[m]);
                        } else {
                            crate::order::lemma_lex_reflexive(ks[j]@.map_values(|c: char| c as int));
                        }
                        crate::order::lemma_lex_antisymmetric(ks[sv[pi] as int].rank(), ks[sv[m] as int].rank());
                        assert(nb(pi));
                    }
                }
            } else {
                assert(!sv.contains(i as usize));
                assert forall|q: int| 0 <= q < sv.len() implies #[trigger] sv[q] != i by {
                    assert(sv.contains(sv[q]));
                }
            }
        }
    }
    flags
}

/// Validates every record, accumulating issues instead of stopping at the first one. The
/// document must be a nonempty array; records that share a nonblank identifier, after
/// trimming, are all invalid.
pub fn validate(value: &Json) -> (r: DocumentReport)
    ensures
        r@ == document_outcome(*value),
{
    let items = match value.as_array() {
        Some(items) => items,
        None => {
            let mut issues: Vec<Issue> = Vec::new();
            add_issue(
                &mut issues,
                Issue { path: String::new(), message: String::from_str("Expected an array of listings.") },
            );
            let r = DocumentReport { issues, listings: Vec::new() };
            assert(r@.issues =~= document_outcome(*value).issues);
            assert(r@.listings =~= document_outcome(*value).listings);
            return r;
        },
    };
    if items.len() == 0 {
        let mut issues: Vec<Issue> = Vec::new();
        add_issue(
            &mut issues,
            Issue { path: String::new(), message: String::from_str("Expected at least one listing.") },
        );
        let r = DocumentReport { issues, listings: Vec::new() };
        assert(r@.issues =~= document_outcome(*value).issues);
        assert(r@.listings =~= document_outcome(*value).listings);
        return r;
    }
    let mut ids: Vec<Option<String>> = Vec::new();
    let mut i: usize = 0;
    while i < items.len()
        invariant
            i <= items@.len(),
            ids@.len() == i,
            forall|k: int| 0 <= k < i ==> #[trigger] opt_text(ids@[k]) == nonblank_text(items@[k], "id"@),
        decreases items.len() - i,
    {
        ids.push(listing_id(&items[i]));
        i += 1;
    }
    let shared_flags = shared_ids(&ids);
    let mut listings: Vec<ListingReport> = Vec::new();
    let mut i: usize = 0;
    while i < items.len()
        invariant
            i <= items@.len(),
            ids@.len() == items@.len(),
            shared_flags@.len() == ids@.len(),
            forall|k: int| 0 <= k < ids@.len() ==> #[trigger] shared_flags@[k] == shared_id_at(ids@, k),
            forall|k: int| 0 <= k < items@.len() ==> #[trigger] opt_text(ids@[k]) == nonblank_text(items@[k], "id"@),
            listings@.len() == i,
            forall|k: int| 0 <= k < i ==> #[trigger] listings@[k]@ == checked_listing(items@, k),
        decreases items.len() - i,
    {
        let listing = validate_listing(i, &items[i]);
        let shared = shared_flags[i];
        assert(shared == shares_id(items@, i as int)) by {
            if shared {
                let j = choose|j: int|
                    0 <= j < ids@.len() && j != i && #[trigger] opt_text(ids@[j]) == opt_text(ids@[i as int]);
                assert(nonblank_text(items@[j], "id"@) == nonblank_text(items@[i as int], "id"@));
            }
            if shares_id(items@, i as int) {
                let j = choose|j: int|
                    0 <= j < items@.len() && j != i && #[trigger] nonblank_text(items@[j], "id"@)
                        == nonblank_text(items@[i as int], "id"@);
                assert(opt_text(ids@[j]) == opt_text(ids@[i as int]));
            }
        }
        if shared {
            let id = ids[i].as_ref().unwrap();
            let base = record_path_of(i);
            let path = field_path_of(base.as_str(), "id");
            let mut message = concat("Duplicate listing ID: ", id.as_str());
            message.append(".");
            let mut issues = listing.issues;
            add_issue(&mut issues, Issue { path, message });
            let checked = ListingReport {
                index: listing.index,
                id: listing.id,
                issues,
                evidence: None,
                reason: String::from_str("Listing contains validation errors."),
            };
            assert(checked@ == checked_listing(items@, i as int));
            listings.push(checked);
        } else {
            listings.push(listing);
        }
        i += 1;
    }
    let r = DocumentReport { issues: Vec::new(), listings };
    assert(r@.issues =~= document_outcome(*value).issues);
    assert(r@.listings =~= document_outcome(*value).listings);
    r
}

} // verus!
