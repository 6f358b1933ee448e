//! Lexicographic order on sequences, and sorting by it.
//!
//! Texts are ordered character by character by code point, which is the order of their
//! UTF-8 bytes; byte strings are ordered byte by byte. A proper prefix comes first.

use vstd::prelude::*;
use vstd::multiset::Multiset;
use vstd::relations::{sorted_by, total_ordering};

verus! {

broadcast use {vstd::seq_lib::group_to_multiset_ensures, vstd::multiset::group_multiset_axioms};

/// Lexicographic order on sequences of integers: `a` comes no later than `b`.
pub open spec fn lex_le(a: Seq<int>, b: Seq<int>) -> bool
    decreases a.len(),
{
    if a.len() == 0 {
        true
    } else if b.len() == 0 {
        false
    } else if a[0] != b[0] {
        a[0] < b[0]
    } else {
        lex_le(a.drop_first(), b.drop_first())
    }
}

/// The code points of a text.
pub open spec fn char_codes(s: Seq<char>) -> Seq<int> {
    s.map_values(|c: char| c as int)
}

/// The values of a byte string.
pub open spec fn byte_codes(s: Seq<u8>) -> Seq<int> {
    s.map_values(|b: u8| b as int)
}

/// Texts in lexicographic order of code points.
pub open spec fn text_le(a: Seq<char>, b: Seq<char>) -> bool {
    lex_le(char_codes(a), char_codes(b))
}

/// Byte strings in lexicographic order.
pub open spec fn bytes_le(a: Seq<u8>, b: Seq<u8>) -> bool {
    lex_le(byte_codes(a), byte_codes(b))
}

/// `text_le` as a relation.
pub open spec fn text_order() -> spec_fn(Seq<char>, Seq<char>) -> bool {
    |a: Seq<char>, b: Seq<char>| text_le(a, b)
}

pub(crate) proof fn lemma_lex_reflexive(a: Seq<int>)
    ensures
        lex_le(a, a),
    decreases a.len(),
{
    if a.len() > 0 {
        lemma_lex_reflexive(a.drop_first());
    }
}

pub(crate) proof fn lemma_lex_antisymmetric(a: Seq<int>, b: Seq<int>)
    requires
        lex_le(a, b),
        lex_le(b, a),
    ensures
        a == b,
    decreases a.len(),
{
    if a.len() > 0 && b.len() > 0 {
        lemma_lex_antisymmetric(a.drop_first(), b.drop_first());
        assert(a =~= seq![a[0]] + a.drop_first());
        assert(b =~= seq![b[0]] + b.drop_first());
    } else {
        assert(a =~= b);
    }
}

pub(crate) proof fn lemma_lex_transitive(a: Seq<int>, b: Seq<int>, c: Seq<int>)
    requires
        lex_le(a, b),
        lex_le(b, c),
    ensures
        lex_le(a, c),
    decreases a.len(),
{
    if a.len() > 0 && b.len() > 0 && c.len() > 0 {
        if a[0] == b[0] && b[0] == c[0] {
            lemma_lex_transitive(a.drop_first(), b.drop_first(), c.drop_first());
        }
    }
}

pub(crate) proof fn lemma_lex_total(a: Seq<int>, b: Seq<int>)
    ensures
        lex_le(a, b) || lex_le(b, a),
    decreases a.len(),
{
    if a.len() > 0 && b.len() > 0 {
        lemma_lex_total(a.drop_first(), b.drop_first());
    }
}

proof fn lemma_lex_step(a: Seq<int>, b: Seq<int>, i: int)
    requires
        0 <= i < a.len(),
        i < b.len(),
        a[i] == b[i],
    ensures
        lex_le(a.skip(i), b.skip(i)) == lex_le(a.skip(i + 1), b.skip(i + 1)),
{
    assert(a.skip(i).drop_first() =~= a.skip(i + 1));
    assert(b.skip(i).drop_first() =~= b.skip(i + 1));
}

/// `text_le` is a total order.
pub proof fn text_order_is_total()
    ensures
        total_ordering(text_order()),
{
    assert forall|a: Seq<char>| #[trigger] text_order()(a, a) by {
        lemma_lex_reflexive(char_codes(a));
    }
    assert forall|a: Seq<char>, b: Seq<char>|
        #[trigger] text_order()(a, b) && #[trigger] text_order()(b, a) implies a == b by {
        lemma_lex_antisymmetric(char_codes(a), char_codes(b));
        assert(a.len() == char_codes(a).len());
        assert forall|i: int| 0 <= i < a.len() implies a[i] == b[i] by {
            assert(char_codes(a)[i] == char_codes(b)[i]);
        }
        assert(a =~= b);
    }
    assert forall|a: Seq<char>, b: Seq<char>, c: Seq<char>|
        #[trigger] text_order()(a, b) && #[trigger] text_order()(b, c) implies text_order()(a, c) by {
        lemma_lex_transitive(char_codes(a), char_codes(b), char_codes(c));
    }
    assert forall|a: Seq<char>, b: Seq<char>|
        #[trigger] text_order()(a, b) || #[trigger] text_order()(b, a) by {
        lemma_lex_total(char_codes(a), char_codes(b));
    }
}

/// Under a total order, two sorted sequences with the same elements are equal.
pub(crate) proof fn sorted_permutations_are_equal<A>(a: Seq<A>, b: Seq<A>, leq: spec_fn(A, A) -> bool)
    requires
        total_ordering(leq),
        sorted_by(a, leq),
        sorted_by(b, leq),
        a.to_multiset() == b.to_multiset(),
    ensures
        a == b,
    decreases a.len(),
{
    a.to_multiset_ensures();
    b.to_multiset_ensures();
    if a.len() == 0 {
        assert(a =~= b);
    } else {
        assert(a.contains(a[0]));
        assert(b.contains(b[0]));
        assert(a.to_multiset().count(a[0]) > 0);
        assert(b.to_multiset().count(b[0]) > 0);
        assert(b.contains(a[0]));
        assert(a.contains(b[0]));
        let j = choose|j: int| 0 <= j < b.len() && b[j] == a[0];
        let k = choose|k: int| 0 <= k < a.len() && a[k] == b[0];
        if j > 0 {
            assert(leq(b[0], b[j]));
        }
        if k > 0 {
            assert(leq(a[0], a[k]));
        }
        assert(leq(b[0], a[0]));
        assert(leq(a[0], b[0]));
        assert(a[0] == b[0]);
        assert(a.remove(0) =~= a.drop_first());
        assert(b.remove(0) =~= b.drop_first());
        assert(sorted_by(a.drop_first(), leq)) by {
            assert forall|x: int, y: int| 0 <= x < y < a.drop_first().len() implies
                #[trigger] leq(a.drop_first()[x], a.drop_first()[y]) by {
                assert(leq(a[x + 1], a[y + 1]));
            }
        }
        assert(sorted_by(b.drop_first(), leq)) by {
            assert forall|x: int, y: int| 0 <= x < y < b.drop_first().len() implies
                #[trigger] leq(b.drop_first()[x], b.drop_first()[y]) by {
                assert(leq(b[x + 1], b[y + 1]));
            }
        }
        sorted_permutations_are_equal(a.drop_first(), b.drop_first(), leq);
        assert(a =~= seq![a[0]] + a.drop_first());
        assert(b =~= seq![b[0]] + b.drop_first());
    }
}

/// `text_le(a, b)`, computed.
pub fn text_le_exec(a: &Vec<char>, b: &Vec<char>) -> (r: bool)
    ensures
        r == text_le(a@, b@),
{
    let ghost ca = char_codes(a@);
    let ghost cb = char_codes(b@);
    let mut i: usize = 0;
    assert(ca.skip(0) =~= ca);
    assert(cb.skip(0) =~= cb);
    while i < a.len() && i < b.len()
        invariant
            i <= a@.len(),
            i <= b@.len(),
            ca == char_codes(a@),
            cb == char_codes(b@),
            lex_le(ca, cb) == lex_le(ca.skip(i as int), cb.skip(i as int)),
        decreases a.len() - i,
    {
        if a[i] != b[i] {
            assert(ca.skip(i as int)[0] == a@[i as int] as int);
            assert(cb.skip(i as int)[0] == b@[i as int] as int);
            return a[i] < b[i];
        }
        proof {
            lemma_lex_step(ca, cb, i as int);
        }
        i += 1;
    }
    i == a.len()
}

/// `bytes_le(a, b)`, computed.
pub fn bytes_le_exec(a: &Vec<u8>, b: &Vec<u8>) -> (r: bool)
    ensures
        r == bytes_le(a@, b@),
{
    let ghost ca = byte_codes(a@);
    let ghost cb = byte_codes(b@);
    let mut i: usize = 0;
    assert(ca.skip(0) =~= ca);
    assert(cb.skip(0) =~= cb);
    while i < a.len() && i < b.len()
        invariant
            i <= a@.len(),
            i <= b@.len(),
            ca == byte_codes(a@),
            cb == byte_codes(b@),
            lex_le(ca, cb) == lex_le(ca.skip(i as int), cb.skip(i as int)),
        decreases a.len() - i,
    {
        if a[i] != b[i] {
            assert(ca.skip(i as int)[0] == a@[i as int] as int);
            assert(cb.skip(i as int)[0] == b@[i as int] as int);
            return a[i] < b[i];
        }
        proof {
            lemma_lex_step(ca, cb, i as int);
        }
        i += 1;
    }
    i == a.len()
}

/// The texts held by a vector of character vectors.
pub open spec fn text_views(s: Seq<Vec<char>>) -> Seq<Seq<char>> {
    s.map_values(|x: Vec<char>| x@)
}

/// Every text of `a` comes no later than every text of `b`.
pub open spec fn all_le(a: Seq<Seq<char>>, b: Seq<Seq<char>>) -> bool {
    forall|p: int, q: int| 0 <= p < a.len() && 0 <= q < b.len() ==> text_le(#[trigger] a[p], #[trigger] b[q])
}

/// The texts are in reverse lexicographic order.
pub open spec fn descending(a: Seq<Seq<char>>) -> bool {
    forall|p: int, q: int| 0 <= p < q < a.len() ==> text_le(#[trigger] a[q], #[trigger] a[p])
}

/// Removing the last element of `v` takes its text out of the texts of `v`.
proof fn lemma_pop_views(before: Seq<Vec<char>>, after: Seq<Vec<char>>, x: Vec<char>)
    requires
        before.len() > 0,
        after == before.drop_last(),
        x == before.last(),
    ensures
        text_views(before) == text_views(after).push(x@),
        text_views(before).to_multiset() == text_views(after).to_multiset().insert(x@),
{
    assert(before =~= after.push(x));
    assert(text_views(before) =~= text_views(after).push(x@));
    text_views(after).to_multiset_ensures();
}

/// Merges two lists of texts that are each in lexicographic order, taking the larger last
/// text of the two at each step and reversing at the end.
fn merge_texts(l: Vec<Vec<char>>, r: Vec<Vec<char>>) -> (m: Vec<Vec<char>>)
    requires
        sorted_by(text_views(l@), text_order()),
        sorted_by(text_views(r@), text_order()),
    ensures
        sorted_by(text_views(m@), text_order()),
        text_views(m@).to_multiset() == text_views(l@).to_multiset().add(text_views(r@).to_multiset()),
{
    proof {
        text_order_is_total();
    }
    let ghost total = text_views(l@).to_multiset().add(text_views(r@).to_multiset());
    let mut l = l;
    let mut r = r;
    let mut desc: Vec<Vec<char>> = Vec::new();
    assert(text_views(desc@).to_multiset() =~= Multiset::empty()) by {
        text_views(desc@).to_multiset_ensures();
    }
    while l.len() > 0 || r.len() > 0
        invariant
            total_ordering(text_order()),
            sorted_by(text_views(l@), text_order()),
            sorted_by(text_views(r@), text_order()),
            descending(text_views(desc@)),
            all_le(text_views(l@), text_views(desc@)),
            all_le(text_views(r@), text_views(desc@)),
            text_views(desc@).to_multiset().add(text_views(l@).to_multiset()).add(
                text_views(r@).to_multiset(),
            ) == total,
        decreases l.len() + r.len(),
    {
        let ghost lv = text_views(l@);
        let ghost rv = text_views(r@);
        let ghost dv = text_views(desc@);
        let take_left = l.len() > 0 && (r.len() == 0 || text_le_exec(&r[r.len() - 1], &l[l.len() - 1]));
        let ghost l_before = l@;
        let ghost r_before = r@;
        let x = if take_left {
            l.pop().unwrap()
        } else {
            r.pop().unwrap()
        };
        proof {
            if take_left {
                lemma_pop_views(l_before, l@, x);
                assert(rv == text_views(r@));
            } else {
                lemma_pop_views(r_before, r@, x);
                assert(lv == text_views(l@));
            }
            assert forall|q: int| 0 <= q < text_views(l@).len() implies text_le(#[trigger] text_views(l@)[q], x@) by {
                assert(text_views(l@)[q] == lv[q]);
                if take_left {
                    assert(text_order()(lv[q], lv[lv.len() - 1]));
                } else {
                    assert(text_order()(lv[lv.len() - 1], rv[rv.len() - 1]) || text_order()(rv[rv.len() - 1], lv[lv.len() - 1]));
                    if q < lv.len() - 1 {
                        assert(text_order()(lv[q], lv[lv.len() - 1]));
                    } else {
                        assert(text_order()(lv[q], lv[q]));
                    }
                    assert(text_order()(lv[q], lv[lv.len() - 1]) && text_order()(lv[lv.len() - 1], rv[rv.len() - 1]));
                }
            }
            assert forall|q: int| 0 <= q < text_views(r@).len() implies text_le(#[trigger] text_views(r@)[q], x@) by {
                assert(text_views(r@)[q] == rv[q]);
                if !take_left {
                    assert(text_order()(rv[q], rv[rv.len() - 1]));
                } else {
                    if q < rv.len() - 1 {
                        assert(text_order()(rv[q], rv[rv.len() - 1]));
                    } else {
                        assert(text_order()(rv[q], rv[q]));
                    }
                    assert(text_order()(rv[q], rv[rv.len() - 1]) && text_order()(rv[rv.len() - 1], lv[lv.len() - 1]));
                }
            }
        }
        desc.push(x);
        proof {
            assert(text_views(desc@) =~= dv.push(x@));
            dv.to_multiset_ensures();
            assert forall|p: int, q: int| 0 <= p < q < text_views(desc@).len() implies text_le(
                #[trigger] text_views(desc@)[q],
                #[trigger] text_views(desc@)[p],
            ) by {
                if q < dv.len() {
                    assert(text_views(desc@)[q] == dv[q] && text_views(desc@)[p] == dv[p]);
                } else {
                    assert(text_views(desc@)[p] == dv[p]);
                    if take_left {
                        assert(lv[lv.len() - 1] == x@);
                        assert(text_le(lv[lv.len() - 1], dv[p]));
                    } else {
                        assert(rv[rv.len() - 1] == x@);
                        assert(text_le(rv[rv.len() - 1], dv[p]));
                    }
                }
            }
            assert forall|p: int, q: int| 0 <= p < text_views(l@).len() && 0 <= q < text_views(desc@).len()
                implies text_le(#[trigger] text_views(l@)[p], #[trigger] text_views(desc@)[q]) by {
                if q < dv.len() {
                    assert(text_views(desc@)[q] == dv[q]);
                    if take_left {
                        assert(text_views(l@)[p] == lv[p]);
                    } else {
                        assert(text_views(l@)[p] == lv[p]);
                    }
                }
            }
            assert forall|p: int, q: int| 0 <= p < text_views(r@).len() && 0 <= q < text_views(desc@).len()
                implies text_le(#[trigger] text_views(r@)[p], #[trigger] text_views(desc@)[q]) by {
                if q < dv.len() {
                    assert(text_views(desc@)[q] == dv[q]);
                    assert(text_views(r@)[p] == rv[p]);
                }
            }
            assert(sorted_by(text_views(l@), text_order())) by {
                assert forall|a: int, b: int| 0 <= a < b < text_views(l@).len() implies text_order()(
                    #[trigger] text_views(l@)[a],
                    #[trigger] text_views(l@)[b],
                ) by {
                    assert(text_views(l@)[a] == lv[a] && text_views(l@)[b] == lv[b]);
                }
            }
            assert(sorted_by(text_views(r@), text_order())) by {
                assert forall|a: int, b: int| 0 <= a < b < text_views(r@).len() implies text_order()(
                    #[trigger] text_views(r@)[a],
                    #[trigger] text_views(r@)[b],
                ) by {
                    assert(text_views(r@)[a] == rv[a] && text_views(r@)[b] == rv[b]);
                }
            }
            assert(text_views(desc@).to_multiset().add(text_views(l@).to_multiset()).add(
                text_views(r@).to_multiset(),
            ) =~= total);
        }
    }
    assert(text_views(l@).to_multiset() =~= Multiset::empty()) by {
        text_views(l@).to_multiset_ensures();
    }
    assert(text_views(r@).to_multiset() =~= Multiset::empty()) by {
        text_views(r@).to_multiset_ensures();
    }
    let mut m: Vec<Vec<char>> = Vec::new();
    assert(text_views(m@).to_multiset() =~= Multiset::empty()) by {
        text_views(m@).to_multiset_ensures();
    }
    while desc.len() > 0
        invariant
            total_ordering(text_order()),
            sorted_by(text_views(m@), text_order()),
            descending(text_views(desc@)),
            all_le(text_views(m@), text_views(desc@)),
            text_views(m@).to_multiset().add(text_views(desc@).to_multiset()) == total,
        decreases desc.len(),
    {
        let ghost d_before = desc@;
        let ghost dv = text_views(desc@);
        let ghost mv = text_views(m@);
        let x = desc.pop().unwrap();
        proof {
            lemma_pop_views(d_before, desc@, x);
        }
        m.push(x);
        proof {
            assert(text_views(m@) =~= mv.push(x@));
            mv.to_multiset_ensures();
            assert forall|a: int, b: int| 0 <= a < b < text_views(m@).len() implies text_order()(
                #[trigger] text_views(m@)[a],
                #[trigger] text_views(m@)[b],
            ) by {
                if b < mv.len() {
                    assert(text_views(m@)[a] == mv[a] && text_views(m@)[b] == mv[b]);
                } else {
                    assert(text_views(m@)[a] == mv[a]);
                    assert(dv[dv.len() - 1] == x@);
                }
            }
            assert forall|p: int, q: int| 0 <= p < text_views(m@).len() && 0 <= q < text_views(desc@).len()
                implies text_le(#[trigger] text_views(m@)[p], #[trigger] text_views(desc@)[q]) by {
                assert(text_views(desc@)[q] == dv[q]);
                if p < mv.len() {
                    assert(text_views(m@)[p] == mv[p]);
                } else {
                    assert(text_le(dv[dv.len() - 1], dv[q]));
                }
            }
            assert forall|a: int, b: int| 0 <= a < b < text_views(desc@).len() implies text_le(
                #[trigger] text_views(desc@)[b],
                #[trigger] text_views(desc@)[a],
            ) by {
                assert(text_views(desc@)[a] == dv[a] && text_views(desc@)[b] == dv[b]);
            }
            assert(text_views(m@).to_multiset().add(text_views(desc@).to_multiset()) =~= total);
        }
    }
    assert(text_views(desc@).to_multiset() =~= Multiset::empty()) by {
        text_views(desc@).to_multiset_ensures();
    }
    m
}

/// Sorts texts by a merge sort: the result is in lexicographic order and holds the same
/// texts.
fn merge_sort_texts(v: Vec<Vec<char>>) -> (r: Vec<Vec<char>>)
    ensures
        sorted_by(text_views(r@), text_order()),
        text_views(r@).to_multiset() == text_views(v@).to_multiset(),
    decreases v@.len(),
{
    if v.len() <= 1 {
        proof {
            text_order_is_total();
        }
        return v;
    }
    let ghost whole = text_views(v@);
    let mut left = v;
    let half = left.len() / 2;
    let right = left.split_off(half);
    assert(whole =~= text_views(left@) + text_views(right@));
    proof {
        vstd::seq_lib::lemma_multiset_commutative(text_views(left@), text_views(right@));
    }
    let sorted_left = merge_sort_texts(left);
    let sorted_right = merge_sort_texts(right);
    merge_texts(sorted_left, sorted_right)
}

/// Sorts texts into lexicographic order of code points (the order of `String`).
pub fn sort_texts(v: Vec<Vec<char>>) -> (r: Vec<Vec<char>>)
    ensures
        text_views(r@) == text_views(v@).sort_by(text_order()),
{
    let ghost given = text_views(v@);
    let r = merge_sort_texts(v);
    proof {
        text_order_is_total();
        given.lemma_sort_by_ensures(text_order());
        sorted_permutations_are_equal(text_views(r@), given.sort_by(text_order()), text_order());
    }
    r
}

// ---------------------------------------------------------------------------
// Sorting positions by key
// ---------------------------------------------------------------------------

/// A key that is ordered lexicographically by a sequence of integers.
pub trait Ranked {
    /// The sequence by which the key is ordered.
    spec fn rank(&self) -> Seq<int>;

    /// `lex_le(self.rank(), other.rank())`, computed.
    fn rank_le(&self, other: &Self) -> (r: bool)
        ensures
            r == lex_le(self.rank(), other.rank()),
    ;
}

impl Ranked for Vec<char> {
    open spec fn rank(&self) -> Seq<int> {
        char_codes(self@)
    }

    fn rank_le(&self, other: &Self) -> (r: bool) {
        text_le_exec(self, other)
    }
}

impl Ranked for Vec<u8> {
    open spec fn rank(&self) -> Seq<int> {
        byte_codes(self@)
    }

    fn rank_le(&self, other: &Self) -> (r: bool) {
        bytes_le_exec(self, other)
    }
}

/// Position `a` comes before position `b`: its key ranks strictly lower, or the keys rank
/// equally and `a` is the smaller position.
pub open spec fn ranked_before<K: Ranked>(keys: Seq<K>, a: usize, b: usize) -> bool {
    let ka = keys[a as int].rank();
    let kb = keys[b as int].rank();
    ||| lex_le(ka, kb) && ka != kb
    ||| ka == kb && a < b
}

/// The positions of `v` are in strictly increasing `ranked_before` order.
pub open spec fn ranked_sorted<K: Ranked>(keys: Seq<K>, v: Seq<usize>) -> bool {
    forall|p: int, q: int| 0 <= p < q < v.len() ==> ranked_before(keys, #[trigger] v[p], #[trigger] v[q])
}

/// Every position of `v` indexes `keys`.
pub open spec fn positions_in<K>(keys: Seq<K>, v: Seq<usize>) -> bool {
    forall|p: int| 0 <= p < v.len() ==> #[trigger] v[p] < keys.len()
}

proof fn lemma_before_transitive<K: Ranked>(keys: Seq<K>, a: usize, b: usize, c: usize)
    requires
        ranked_before(keys, a, b),
        ranked_before(keys, b, c),
    ensures
        ranked_before(keys, a, c),
{
    let ka = keys[a as int].rank();
    let kb = keys[b as int].rank();
    let kc = keys[c as int].rank();
    if ka != kb && kb != kc {
        lemma_lex_transitive(ka, kb, kc);
        if ka == kc {
            lemma_lex_antisymmetric(kb, kc);
        }
    }
}

proof fn lemma_push_contains(s: Seq<usize>, x: usize)
    ensures
        forall|y: usize| #[trigger] s.push(x).contains(y) <==> s.contains(y) || y == x,
{
    assert forall|y: usize| #[trigger] s.push(x).contains(y) <==> s.contains(y) || y == x by {
        if s.contains(y) {
            let p = choose|p: int| 0 <= p < s.len() && s[p] == y;
            assert(s.push(x)[p] == y);
        }
        if y == x {
            assert(s.push(x)[s.len() as int] == x);
        }
        if s.push(x).contains(y) {
            let p = choose|p: int| 0 <= p < s.len() + 1 && s.push(x)[p] == y;
            if p < s.len() {
                assert(s[p] == y);
            }
        }
    }
}

proof fn lemma_before_total<K: Ranked>(keys: Seq<K>, a: usize, b: usize)
    requires
        a != b,
    ensures
        ranked_before(keys, a, b) || ranked_before(keys, b, a),
{
    lemma_lex_total(keys[a as int].rank(), keys[b as int].rank());
}

/// `ranked_before(keys, a, b)`, computed.
fn before_exec<K: Ranked>(keys: &Vec<K>, a: usize, b: usize) -> (r: bool)
    requires
        a < keys@.len(),
        b < keys@.len(),
    ensures
        r == ranked_before(keys@, a, b),
{
    let ab = keys[a].rank_le(&keys[b]);
    proof {
        lemma_lex_reflexive(keys@[a as int].rank());
    }
    if !ab {
        return false;
    }
    let ba = keys[b].rank_le(&keys[a]);
    proof {
        if ab && ba {
            lemma_lex_antisymmetric(keys@[a as int].rank(), keys@[b as int].rank());
        }
        if keys@[a as int].rank() == keys@[b as int].rank() {
            lemma_lex_reflexive(keys@[a as int].rank());
        }
    }
    if !ba {
        return true;
    }
    a < b
}

/// Merges two sorted lists of distinct positions.
fn merge_positions<K: Ranked>(keys: &Vec<K>, l: Vec<usize>, r: Vec<usize>) -> (m: Vec<usize>)
    requires
        positions_in(keys@, l@),
        positions_in(keys@, r@),
        ranked_sorted(keys@, l@),
        ranked_sorted(keys@, r@),
        l@.disjoint(r@),
    ensures
        positions_in(keys@, m@),
        ranked_sorted(keys@, m@),
        forall|x: usize| #[trigger] m@.contains(x) <==> l@.contains(x) || r@.contains(x),
{
    let mut m: Vec<usize> = Vec::new();
    let mut i: usize = 0;
    let mut j: usize = 0;
    assert(l@.take(0) =~= Seq::<usize>::empty());
    assert(r@.take(0) =~= Seq::<usize>::empty());
    while i < l.len() || j < r.len()
        invariant
            i <= l@.len(),
            j <= r@.len(),
            positions_in(keys@, l@),
            positions_in(keys@, r@),
            ranked_sorted(keys@, l@),
            ranked_sorted(keys@, r@),
            l@.disjoint(r@),
            positions_in(keys@, m@),
            ranked_sorted(keys@, m@),
            forall|x: usize| #[trigger] m@.contains(x) <==> l@.take(i as int).contains(x) || r@.take(j as int).contains(x),
            forall|p: int, q: int| 0 <= p < m@.len() && i <= q < l@.len()
                ==> ranked_before(keys@, #[trigger] m@[p], #[trigger] l@[q]),
            forall|p: int, q: int| 0 <= p < m@.len() && j <= q < r@.len()
                ==> ranked_before(keys@, #[trigger] m@[p], #[trigger] r@[q]),
        decreases l@.len() + r@.len() - i - j,
    {
        let take_left = if i < l.len() {
            if j < r.len() {
                before_exec(keys, l[i], r[j])
            } else {
                true
            }
        } else {
            false
        };
        let ghost old_m = m@;
        if take_left {
            let x = l[i];
            m.push(x);
            proof {
                assert(l@.take(i + 1) =~= l@.take(i as int).push(x));
                assert forall|q: int| i + 1 <= q < l@.len() implies ranked_before(keys@, x, #[trigger] l@[q]) by {
                    assert(ranked_before(keys@, l@[i as int], l@[q]));
                }
                assert forall|q: int| j <= q < r@.len() implies ranked_before(keys@, x, #[trigger] r@[q]) by {
                    if q > j {
                        assert(ranked_before(keys@, r@[j as int], r@[q]));
                        lemma_before_transitive(keys@, x, r@[j as int], r@[q]);
                    }
                }
                assert forall|p: int, q: int| 0 <= p < m@.len() && i + 1 <= q < l@.len()
                    implies ranked_before(keys@, #[trigger] m@[p], #[trigger] l@[q]) by {
                    if p < old_m.len() {
                        assert(m@[p] == old_m[p]);
                    }
                }
                assert forall|p: int, q: int| 0 <= p < m@.len() && j <= q < r@.len()
                    implies ranked_before(keys@, #[trigger] m@[p], #[trigger] r@[q]) by {
                    if p < old_m.len() {
                        assert(m@[p] == old_m[p]);
                    }
                }
                assert forall|p: int, q: int| 0 <= p < q < m@.len()
                    implies ranked_before(keys@, #[trigger] m@[p], #[trigger] m@[q]) by {
                    if q < old_m.len() {
                        assert(m@[p] == old_m[p] && m@[q] == old_m[q]);
                    } else {
                        assert(m@[p] == old_m[p]);
                        assert(ranked_before(keys@, old_m[p], l@[i as int]));
                    }
                }
                assert(m@ == old_m.push(x));
                lemma_push_contains(old_m, x);
                lemma_push_contains(l@.take(i as int), x);
            }
            i += 1;
        } else {
            let x = r[j];
            m.push(x);
            proof {
                assert(r@.take(j + 1) =~= r@.take(j as int).push(x));
                if i < l@.len() {
                    assert(!l@.contains(x)) by {
                        assert(r@.contains(x));
                    }
                    assert(l@[i as int] != x) by {
                        assert(l@.contains(l@[i as int]));
                    }
                    lemma_before_total(keys@, l@[i as int], x);
                }
                assert forall|q: int| j + 1 <= q < r@.len() implies ranked_before(keys@, x, #[trigger] r@[q]) by {
                    assert(ranked_before(keys@, r@[j as int], r@[q]));
                }
                assert forall|q: int| i <= q < l@.len() implies ranked_before(keys@, x, #[trigger] l@[q]) by {
                    if q > i {
                        assert(ranked_before(keys@, l@[i as int], l@[q]));
                        lemma_before_transitive(keys@, x, l@[i as int], l@[q]);
                    }
                }
                assert forall|p: int, q: int| 0 <= p < m@.len() && i <= q < l@.len()
                    implies ranked_before(keys@, #[trigger] m@[p], #[trigger] l@[q]) by {
                    if p < old_m.len() {
                        assert(m@[p] == old_m[p]);
                    }
                }
                assert forall|p: int, q: int| 0 <= p < m@.len() && j + 1 <= q < r@.len()
                    implies ranked_before(keys@, #[trigger] m@[p], #[trigger] r@[q]) by {
                    if p < old_m.len() {
                        assert(m@[p] == old_m[p]);
                    }
                }
                assert forall|p: int, q: int| 0 <= p < q < m@.len()
                    implies ranked_before(keys@, #[trigger] m@[p], #[trigger] m@[q]) by {
                    if q < old_m.len() {
                        assert(m@[p] == old_m[p] && m@[q] == old_m[q]);
                    } else {
                        assert(m@[p] == old_m[p]);
                        assert(ranked_before(keys@, old_m[p], r@[j as int]));
                    }
                }
                assert(m@ == old_m.push(x));
                lemma_push_contains(old_m, x);
                lemma_push_contains(r@.take(j as int), x);
            }
            j += 1;
        }
    }
    assert(l@.take(l@.len() as int) =~= l@);
    assert(r@.take(r@.len() as int) =~= r@);
    m
}

/// Sorts distinct positions of `keys` by key, then by position (a stable merge sort).
pub fn sort_positions<K: Ranked>(keys: &Vec<K>, v: Vec<usize>) -> (r: Vec<usize>)
    requires
        positions_in(keys@, v@),
        v@.no_duplicates(),
    ensures
        positions_in(keys@, r@),
        ranked_sorted(keys@, r@),
        forall|x: usize| #[trigger] r@.contains(x) <==> v@.contains(x),
    decreases v@.len(),
{
    if v.len() <= 1 {
        return v;
    }
    let ghost whole = v@;
    let mut left = v;
    let half = left.len() / 2;
    let right = left.split_off(half);
    assert(whole =~= left@ + right@);
    assert(left@.disjoint(right@)) by {
        assert forall|a: int, b: int| 0 <= a < left@.len() && 0 <= b < right@.len() implies left@[a] != right@[b] by {
            assert(whole[a] == left@[a]);
            assert(whole[half + b] == right@[b]);
        }
    }
    assert(left@.no_duplicates()) by {
        assert forall|a: int, b: int| 0 <= a < left@.len() && 0 <= b < left@.len() && a != b implies left@[a] != left@[b] by {
            assert(whole[a] == left@[a] && whole[b] == left@[b]);
        }
    }
    assert(right@.no_duplicates()) by {
        assert forall|a: int, b: int| 0 <= a < right@.len() && 0 <= b < right@.len() && a != b implies right@[a] != right@[b] by {
            assert(whole[half + a] == right@[a] && whole[half + b] == right@[b]);
        }
    }
    assert(positions_in(keys@, left@)) by {
        assert forall|p: int| 0 <= p < left@.len() implies #[trigger] left@[p] < keys@.len() by {
            assert(whole[p] == left@[p]);
        }
    }
    assert(positions_in(keys@, right@)) by {
        assert forall|p: int| 0 <= p < right@.len() implies #[trigger] right@[p] < keys@.len() by {
            assert(whole[half + p] == right@[p]);
        }
    }
    let ghost lv = left@;
    let ghost rv = right@;
    let sorted_left = sort_positions(keys, left);
    let sorted_right = sort_positions(keys, right);
    assert(sorted_left@.disjoint(sorted_right@)) by {
        assert forall|a: int, b: int| 0 <= a < sorted_left@.len() && 0 <= b < sorted_right@.len()
            implies sorted_left@[a] != sorted_right@[b] by {
            assert(sorted_left@.contains(sorted_left@[a]));
            assert(sorted_right@.contains(sorted_right@[b]));
            if sorted_left@[a] == sorted_right@[b] {
                let x = sorted_left@[a];
                assert(lv.contains(x) && rv.contains(x));
                let pa = choose|pa: int| 0 <= pa < lv.len() && lv[pa] == x;
                let pb = choose|pb: int| 0 <= pb < rv.len() && rv[pb] == x;
            }
        }
    }
    let merged = merge_positions(keys, sorted_left, sorted_right);
    assert forall|x: usize| #[trigger] merged@.contains(x) <==> whole.contains(x) by {
        if whole.contains(x) {
            let p = choose|p: int| 0 <= p < whole.len() && whole[p] == x;
            if p < half {
                assert(lv[p] == x);
            } else {
                assert(rv[p - half] == x);
            }
        }
        if lv.contains(x) {
            let p = choose|p: int| 0 <= p < lv.len() && lv[p] == x;
            assert(whole[p] == x);
        }
        if rv.contains(x) {
            let p = choose|p: int| 0 <= p < rv.len() && rv[p] == x;
            assert(whole[half + p] == x);
        }
    }
    merged
}

/// Positions in sorted order have nondecreasing ranks.
pub(crate) proof fn lemma_before_ranks<K: Ranked>(keys: Seq<K>, a: usize, b: usize)
    requires
        ranked_before(keys, a, b),
    ensures
        lex_le(keys[a as int].rank(), keys[b as int].rank()),
{
    lemma_lex_reflexive(keys[a as int].rank());
}

/// Texts with the same code points are equal.
pub(crate) proof fn lemma_char_codes_injective(a: Seq<char>, b: Seq<char>)
    requires
        char_codes(a) == char_codes(b),
    ensures
        a == b,
{
    assert(a.len() == char_codes(a).len());
    assert(b.len() == char_codes(b).len());
    assert forall|i: int| 0 <= i < a.len() implies a[i] == b[i] by {
        assert(char_codes(a)[i] == a[i] as int);
        assert(char_codes(b)[i] == b[i] as int);
    }
    assert(a =~= b);
}

} // verus!
