//! Where validation issues point: every issue of a listing lies under that listing's own JSON
//! Pointer, and an issue at a checked field appears exactly when that field is wrong.

use vstd::prelude::*;
use crate::json::{Json, Number, member};
use crate::properties::no_unknown_names_exactly_when_all_allowed;
use crate::text::{pointer_piece, pointer_token, trim};
use crate::validate::{
    IssueView, checked_listing, duplicate_issue, field_path, listing_fields, listing_issues, listing_outcome,
    nonblank_text, permission_fields, permission_member_issues, permission_outcome, price_issues, price_ok, property_type_issues,
    property_type_ok, record_path, shares_id, text_issues, unknown_field_issues, unknown_names,
    unsupported_issue,
};

verus! {

/// `path` is `base` itself or a pointer below it.
pub open spec fn within_pointer(path: Seq<char>, base: Seq<char>) -> bool {
    path == base || (base + seq!['/']).is_prefix_of(path)
}

/// Some issue of `issues` is at `path`.
pub open spec fn has_issue_at(issues: Seq<IssueView>, path: Seq<char>) -> bool {
    exists|k: int| 0 <= k < issues.len() && (#[trigger] issues[k]).path == path
}

proof fn lemma_below(base: Seq<char>, rest: Seq<char>)
    ensures
        within_pointer(base + seq!['/'] + rest, base),
{
    assert((base + seq!['/'] + rest).subrange(0, (base.len() + 1) as int) =~= base + seq!['/']);
}

proof fn lemma_within_nested(path: Seq<char>, base: Seq<char>, name: Seq<char>)
    requires
        within_pointer(path, base + seq!['/'] + name),
    ensures
        within_pointer(path, base),
        path.len() >= base.len() + 1 + name.len(),
{
    let inner = base + seq!['/'] + name;
    lemma_below(base, name);
    if path != inner {
        assert(path.subrange(0, (inner.len() + 1) as int) =~= inner + seq!['/']);
        assert(path.subrange(0, (base.len() + 1) as int) =~= (inner + seq!['/']).subrange(0, (base.len() + 1) as int));
        assert(inner.subrange(0, (base.len() + 1) as int) =~= base + seq!['/']);
        assert((inner + seq!['/']).subrange(0, (base.len() + 1) as int) =~= base + seq!['/']);
    }
}

/// A token with no `~` in it escapes nothing: it is the name itself.
proof fn lemma_plain_pointer_token(s: Seq<char>)
    requires
        forall|i: int| 0 <= i < pointer_token(s).len() ==> pointer_token(s)[i] != '~',
    ensures
        pointer_token(s) == s,
    decreases s.len(),
{
    if s.len() > 0 {
        let d = s.drop_last();
        let t = pointer_token(d);
        let p = pointer_piece(s.last());
        assert(pointer_token(s) == t + p);
        assert forall|i: int| 0 <= i < t.len() implies t[i] != '~' by {
            assert(pointer_token(s)[i] == t[i]);
        }
        lemma_plain_pointer_token(d);
        assert(pointer_token(s)[t.len() as int] == p[0]);
        assert(d.push(s.last()) =~= s);
        assert(t + p =~= s);
    }
}

/// The issues of an advertising permission at `base` all lie under `base`.
proof fn lemma_permission_issues_within(value: Option<Json>, base: Seq<char>)
    ensures
        forall|k: int|
            0 <= k < permission_outcome(value, base).issues.len() ==> within_pointer(
                (#[trigger] permission_outcome(value, base).issues[k]).path,
                base,
            ),
{
    let issues = permission_outcome(value, base).issues;
    assert forall|k: int| 0 <= k < issues.len() implies within_pointer((#[trigger] issues[k]).path, base) by {
        if let Some(Json::Object(members)) = value {
            lemma_below(base, "granted"@);
            lemma_below(base, "source"@);
            let names = unknown_names(members@, permission_fields());
            let m = crate::validate::permission_member_issues(members@, base);
            let u = unknown_field_issues(members@, permission_fields(), base);
            assert(issues == m + u);
            if k >= m.len() {
                let j = k - m.len();
                assert(issues[k] == u[j]);
                assert(u[j] == unsupported_issue(base, names[j]));
                lemma_below(base, pointer_token(names[j]));
            }
        }
    }
}

/// The parts of the issues of a listing object, in the order in which they are reported.
spec fn listing_parts(value: Json, members: Seq<(String, Json)>, base: Seq<char>) -> Seq<Seq<IssueView>> {
    seq![
        text_issues(value, "id"@, base),
        property_type_issues(value, base),
        text_issues(value, "location"@, base),
        price_issues(value, base),
        permission_outcome(value.field("advertising_permission"@), field_path(base, "advertising_permission"@)).issues,
        unknown_field_issues(members, listing_fields(), base),
    ]
}

/// Each issue of a listing object comes from one of its parts, at an offset given by the
/// lengths of the parts before it.
proof fn lemma_listing_issue_part(value: Json, members: Seq<(String, Json)>, base: Seq<char>, k: int)
    requires
        0 <= k < listing_issues(value, members, base).len(),
    ensures
        exists|p: int, j: int|
            0 <= p < 6 && 0 <= j < listing_parts(value, members, base)[p].len()
                && listing_issues(value, members, base)[k] == #[trigger] listing_parts(value, members, base)[p][j],
{
    let q = listing_parts(value, members, base);
    let all = listing_issues(value, members, base);
    assert(all == q[0] + q[1] + q[2] + q[3] + q[4] + q[5]);
    let o1 = q[0].len() as int;
    let o2 = o1 + q[1].len();
    let o3 = o2 + q[2].len();
    let o4 = o3 + q[3].len();
    let o5 = o4 + q[4].len();
    if k < o1 {
        assert(all[k] == q[0][k]);
    } else if k < o2 {
        assert(all[k] == q[1][k - o1]);
    } else if k < o3 {
        assert(all[k] == q[2][k - o2]);
    } else if k < o4 {
        assert(all[k] == q[3][k - o3]);
    } else if k < o5 {
        assert(all[k] == q[4][k - o4]);
    } else {
        assert(all[k] == q[5][k - o5]);
    }
}

/// Every issue of a listing object lies under the listing's pointer `base`.
proof fn lemma_listing_issues_within(value: Json, members: Seq<(String, Json)>, base: Seq<char>)
    ensures
        forall|k: int|
            0 <= k < listing_issues(value, members, base).len() ==> within_pointer(
                (#[trigger] listing_issues(value, members, base)[k]).path,
                base,
            ),
{
    let q = listing_parts(value, members, base);
    let all = listing_issues(value, members, base);
    let pbase = field_path(base, "advertising_permission"@);
    lemma_permission_issues_within(value.field("advertising_permission"@), pbase);
    assert forall|k: int| 0 <= k < all.len() implies within_pointer((#[trigger] all[k]).path, base) by {
        lemma_listing_issue_part(value, members, base, k);
        let (p, j) = choose|p: int, j: int|
            0 <= p < 6 && 0 <= j < q[p].len() && all[k] == #[trigger] q[p][j];
        if p == 0 {
            lemma_below(base, "id"@);
        } else if p == 1 {
            lemma_below(base, "property_type"@);
        } else if p == 2 {
            lemma_below(base, "location"@);
        } else if p == 3 {
            lemma_below(base, "asking_price"@);
        } else if p == 4 {
            lemma_within_nested(q[4][j].path, base, "advertising_permission"@);
        } else {
            let names = unknown_names(members, listing_fields());
            assert(q[5][j] == unsupported_issue(base, names[j]));
            lemma_below(base, pointer_token(names[j]));
        }
    }
}

/// Every issue that validation reports for a record lies under that record's own JSON
/// Pointer: it is the pointer itself or begins with it and `/`.
pub proof fn issues_lie_under_their_record(items: Seq<Json>, i: int)
    requires
        0 <= i < items.len(),
        i <= usize::MAX,
    ensures
        forall|k: int|
            0 <= k < checked_listing(items, i).issues.len() ==> within_pointer(
                (#[trigger] checked_listing(items, i).issues[k]).path,
                record_path(i as nat),
            ),
{
    let base = record_path(i as nat);
    assert(((i as usize) as nat) == i);
    let l = listing_outcome(i as usize, items[i]);
    if let Json::Object(members) = items[i] {
        lemma_listing_issues_within(items[i], members@, base);
    }
    lemma_below(base, "id"@);
    let issues = checked_listing(items, i).issues;
    assert forall|k: int| 0 <= k < issues.len() implies within_pointer((#[trigger] issues[k]).path, base) by {
        if k < l.issues.len() {
            assert(issues[k] == l.issues[k]);
        } else {
            assert(issues[k] == duplicate_issue(i as nat, nonblank_text(items[i], "id"@)->0));
        }
    }
}

/// An issue for an unsupported member is never at the path of an allowed member whose name
/// needs no escaping.
proof fn lemma_unsupported_issue_not_at(
    members: Seq<(String, Json)>,
    allowed: Seq<Seq<char>>,
    base: Seq<char>,
    name: Seq<char>,
    j: int,
)
    requires
        allowed.contains(name),
        forall|i: int| 0 <= i < name.len() ==> name[i] != '~',
        0 <= j < unknown_field_issues(members, allowed, base).len(),
    ensures
        unknown_field_issues(members, allowed, base)[j].path != field_path(base, name),
{
    let names = unknown_names(members, allowed);
    let t = pointer_token(names[j]);
    let l: int = (base.len() + 1) as int;
    no_unknown_names_exactly_when_all_allowed(members, allowed);
    assert(unknown_field_issues(members, allowed, base)[j] == unsupported_issue(base, names[j]));
    if base + seq!['/'] + t == field_path(base, name) {
        let target = base + seq!['/'] + name;
        assert((base + seq!['/'] + t).len() == l + t.len());
        assert(target.len() == l + name.len());
        assert(t =~= (base + seq!['/'] + t).subrange(l, (l + t.len()) as int));
        assert(name =~= target.subrange(l, (l + name.len()) as int));
        assert(t =~= name);
        lemma_plain_pointer_token(names[j]);
        assert(names.contains(names[j]));
    }
}

/// An issue for an unsupported member of a listing is never at a supported member's path.
proof fn lemma_unknown_issue_elsewhere(members: Seq<(String, Json)>, base: Seq<char>, name: Seq<char>, j: int)
    requires
        name == "id"@ || name == "property_type"@ || name == "location"@ || name == "asking_price"@,
        0 <= j < unknown_field_issues(members, listing_fields(), base).len(),
    ensures
        unknown_field_issues(members, listing_fields(), base)[j].path != field_path(base, name),
{
    reveal_strlit("id");
    reveal_strlit("property_type");
    reveal_strlit("location");
    reveal_strlit("asking_price");
    assert(listing_fields()[0] == "id"@);
    assert(listing_fields()[1] == "property_type"@);
    assert(listing_fields()[2] == "location"@);
    assert(listing_fields()[3] == "asking_price"@);
    lemma_unsupported_issue_not_at(members, listing_fields(), base, name, j);
}

/// Within the issues of a listing object, an issue at the member `name` (its property type, or
/// its asking price) comes from that member's own check and from nothing else.
proof fn lemma_checked_field_issue(
    value: Json,
    members: Seq<(String, Json)>,
    base: Seq<char>,
    name: Seq<char>,
    part: int,
)
    requires
        (part == 0 && name == "id"@) || (part == 1 && name == "property_type"@) || (part == 2 && name
            == "location"@) || (part == 3 && name == "asking_price"@),
    ensures
        has_issue_at(listing_issues(value, members, base), field_path(base, name))
            <==> listing_parts(value, members, base)[part].len() > 0,
{
    let q = listing_parts(value, members, base);
    let all = listing_issues(value, members, base);
    let target = field_path(base, name);
    let l: int = (base.len() + 1) as int;
    reveal_strlit("id");
    reveal_strlit("property_type");
    reveal_strlit("location");
    reveal_strlit("asking_price");
    reveal_strlit("advertising_permission");
    lemma_permission_issues_within(
        value.field("advertising_permission"@),
        field_path(base, "advertising_permission"@),
    );
    assert(all == q[0] + q[1] + q[2] + q[3] + q[4] + q[5]);
    if has_issue_at(all, target) {
        let k = choose|k: int| 0 <= k < all.len() && (#[trigger] all[k]).path == target;
        lemma_listing_issue_part(value, members, base, k);
        let (p, j) = choose|p: int, j: int|
            0 <= p < 6 && 0 <= j < q[p].len() && all[k] == #[trigger] q[p][j];
        if p == 4 {
            lemma_within_nested(q[4][j].path, base, "advertising_permission"@);
        } else if p == 5 {
            lemma_unknown_issue_elsewhere(members, base, name, j);
        }
    } else if q[part].len() > 0 {
        let k = if part == 0 {
            0
        } else if part == 1 {
            q[0].len() as int
        } else if part == 2 {
            (q[0].len() + q[1].len()) as int
        } else {
            (q[0].len() + q[1].len() + q[2].len()) as int
        };
        assert(all[k] == q[part][0]);
        assert(all[k].path == target);
    }
}

/// For a record that is an object, validation reports an issue at its `property_type`
/// exactly when that member is not a string equal to `Apartment`, `House` or `Land`: no case
/// folding, no trimming.
pub proof fn property_type_issue_exactly_when_outside_the_set(items: Seq<Json>, i: int)
    requires
        0 <= i < items.len(),
        i <= usize::MAX,
        items[i] is Object,
    ensures
        has_issue_at(checked_listing(items, i).issues, field_path(record_path(i as nat), "property_type"@))
            <==> !(items[i].field("property_type"@) matches Some(Json::String(t)) && (t@ == "Apartment"@
            || t@ == "House"@ || t@ == "Land"@)),
        has_issue_at(checked_listing(items, i).issues, field_path(record_path(i as nat), "property_type"@))
            <==> !property_type_ok(items[i]),
{
    checked_field_issue(items, i, "property_type"@, 1);
}

/// For a record that is an object, validation reports an issue at its `asking_price` exactly
/// when that member is not an integer from 1 to `u64::MAX`.
pub proof fn price_issue_exactly_when_not_a_positive_u64(items: Seq<Json>, i: int)
    requires
        0 <= i < items.len(),
        i <= usize::MAX,
        items[i] is Object,
    ensures
        has_issue_at(checked_listing(items, i).issues, field_path(record_path(i as nat), "asking_price"@))
            <==> !(items[i].field("asking_price"@) matches Some(Json::Number(Number::Unsigned(p))) && p > 0),
        has_issue_at(checked_listing(items, i).issues, field_path(record_path(i as nat), "asking_price"@))
            <==> !price_ok(items[i]),
{
    checked_field_issue(items, i, "asking_price"@, 3);
}

/// For a record that is an object, validation reports an issue at its `location` exactly when
/// that member is not a string with something other than white space in it.
pub proof fn location_issue_exactly_when_not_a_nonblank_string(items: Seq<Json>, i: int)
    requires
        0 <= i < items.len(),
        i <= usize::MAX,
        items[i] is Object,
    ensures
        has_issue_at(checked_listing(items, i).issues, field_path(record_path(i as nat), "location"@))
            <==> !(items[i].field("location"@) matches Some(Json::String(t)) && trim(t@).len() > 0),
{
    checked_field_issue(items, i, "location"@, 2);
}

/// For a record that is an object, validation reports an issue at its `id` exactly when that
/// member is not a string with something other than white space in it, or when another record
/// has the same identifier after trimming.
pub proof fn id_issue_exactly_when_blank_or_shared(items: Seq<Json>, i: int)
    requires
        0 <= i < items.len(),
        i <= usize::MAX,
        items[i] is Object,
    ensures
        has_issue_at(checked_listing(items, i).issues, field_path(record_path(i as nat), "id"@)) <==> (!(
        items[i].field("id"@) matches Some(Json::String(t)) && trim(t@).len() > 0) || exists|j: int|
            0 <= j < items.len() && j != i && #[trigger] nonblank_text(items[j], "id"@) == nonblank_text(
                items[i],
                "id"@,
            ) && nonblank_text(items[i], "id"@) is Some),
{
    checked_field_issue(items, i, "id"@, 0);
}

proof fn checked_field_issue(items: Seq<Json>, i: int, name: Seq<char>, part: int)
    requires
        0 <= i < items.len(),
        i <= usize::MAX,
        items[i] is Object,
        (part == 0 && name == "id"@) || (part == 1 && name == "property_type"@) || (part == 2 && name
            == "location"@) || (part == 3 && name == "asking_price"@),
    ensures
        has_issue_at(checked_listing(items, i).issues, field_path(record_path(i as nat), name))
            <==> (listing_parts(items[i], items[i]->Object_0@, record_path(i as nat))[part].len() > 0 || (
        part == 0 && shares_id(items, i))),
{
    let base = record_path(i as nat);
    let target = field_path(base, name);
    assert(((i as usize) as nat) == i);
    if let Json::Object(members) = items[i] {
        lemma_checked_field_issue(items[i], members@, base, name, part);
        let l = listing_outcome(i as usize, items[i]);
        assert(l.issues == listing_issues(items[i], members@, base));
        let issues = checked_listing(items, i).issues;
        reveal_strlit("id");
        reveal_strlit("property_type");
        reveal_strlit("location");
        reveal_strlit("asking_price");
        if has_issue_at(issues, target) {
            let k = choose|k: int| 0 <= k < issues.len() && (#[trigger] issues[k]).path == target;
            if k < l.issues.len() {
                assert(issues[k] == l.issues[k]);
                assert(has_issue_at(l.issues, target));
            } else {
                assert(shares_id(items, i));
                assert(issues[k] == duplicate_issue(i as nat, nonblank_text(items[i], "id"@)->0));
                assert(issues[k].path.len() == base.len() + 3);
                assert(target.len() == base.len() + 1 + name.len());
            }
        }
        if part == 0 && shares_id(items, i) {
            let k = l.issues.len() as int;
            assert(issues[k] == duplicate_issue(i as nat, nonblank_text(items[i], "id"@)->0));
            assert(issues[k].path == target);
        }
        if has_issue_at(l.issues, target) {
            let k = choose|k: int| 0 <= k < l.issues.len() && (#[trigger] l.issues[k]).path == target;
            assert(issues[k] == l.issues[k]);
            assert(has_issue_at(issues, target));
        }
        assert(items[i]->Object_0 == members);
    }
}

/// Within a permission object at `base`, an issue at its `granted` is reported exactly when
/// that member is present and is neither null nor a boolean, and an issue at its `source`
/// exactly when that member is present and is neither null nor a string.
pub proof fn permission_member_issue_exactly_when_mistyped(members: Vec<(String, Json)>, base: Seq<char>)
    ensures
        has_issue_at(permission_outcome(Some(Json::Object(members)), base).issues, field_path(base, "granted"@))
            <==> (member(members@, "granted"@) matches Some(g) && !(g is Null) && !(g is Bool)),
        has_issue_at(permission_outcome(Some(Json::Object(members)), base).issues, field_path(base, "source"@))
            <==> (member(members@, "source"@) matches Some(v) && !(v is Null) && !(v is String)),
{
    reveal_strlit("granted");
    reveal_strlit("source");
    assert(permission_fields()[0] == "granted"@);
    assert(permission_fields()[1] == "source"@);
    let issues = permission_outcome(Some(Json::Object(members)), base).issues;
    let m = permission_member_issues(members@, base);
    let u = unknown_field_issues(members@, permission_fields(), base);
    assert(issues == m + u);
    let granted_bad = member(members@, "granted"@) matches Some(g) && !(g is Null) && !(g is Bool);
    let source_bad = member(members@, "source"@) matches Some(v) && !(v is Null) && !(v is String);
    let g_len: int = if granted_bad { 1 } else { 0 };
    assert(m.len() == g_len + if source_bad { 1int } else { 0 });
    assert(granted_bad ==> m[0].path == field_path(base, "granted"@));
    assert(source_bad ==> m[g_len].path == field_path(base, "source"@));
    assert(!granted_bad && source_bad ==> m[0].path == field_path(base, "source"@));
    assert forall|name: Seq<char>|
        (name == "granted"@ || name == "source"@) && has_issue_at(issues, field_path(base, name)) implies (
        if name == "granted"@ {
            granted_bad
        } else {
            source_bad
        }) by {
        let k = choose|k: int| 0 <= k < issues.len() && (#[trigger] issues[k]).path == field_path(base, name);
        if k >= m.len() {
            assert(issues[k] == u[k - m.len()]);
            lemma_unsupported_issue_not_at(members@, permission_fields(), base, name, k - m.len());
        } else {
            assert(issues[k] == m[k]);
        }
    }
    if granted_bad {
        assert(issues[0] == m[0]);
    }
    if source_bad {
        assert(issues[g_len] == m[g_len]);
    }
}

} // verus!
