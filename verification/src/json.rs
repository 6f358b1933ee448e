//! The JSON values that validation reads.
//!
//! A document is parsed elsewhere into a `Json`; validation only reads it. Object members
//! keep the order in which they were written. A parsed document never holds two members of
//! one object with the same name (see `MemberNames`, which the parser uses to refuse them);
//! where a value built by hand does, the first one is the one that is read.

use vstd::prelude::*;
use vstd::hash_set::StringHashSet;

verus! {

/// A JSON number, as the parser classified it.
#[derive(Clone, Copy, Debug, PartialEq, Eq, Structural)]
pub enum Number {
    /// An integer in `0..=u64::MAX`.
    Unsigned(u64),
    /// A negative integer in `i64::MIN..0`.
    Negative(i64),
    /// Any other number: one written with a fraction or an exponent, or an integer outside
    /// both ranges above. Its value plays no part in validation.
    Float,
}

/// A JSON value.
#[derive(Debug, PartialEq)]
pub enum Json {
    Null,
    Bool(bool),
    Number(Number),
    String(String),
    Array(Vec<Json>),
    /// Members in document order.
    Object(Vec<(String, Json)>),
}

/// The value of the first member named `key`, if there is one.
pub open spec fn member(members: Seq<(String, Json)>, key: Seq<char>) -> Option<Json>
    decreases members.len(),
{
    if members.len() == 0 {
        None
    } else if members[0].0@ == key {
        Some(members[0].1)
    } else {
        member(members.drop_first(), key)
    }
}

/// The names of the members, in order.
pub open spec fn member_names(members: Seq<(String, Json)>) -> Seq<Seq<char>> {
    members.map_values(|m: (String, Json)| m.0@)
}

impl Json {
    /// The member named `key`, where `self` is an object that has one.
    pub open spec fn field(self, key: Seq<char>) -> Option<Json> {
        match self {
            Json::Object(members) => member(members@, key),
            _ => None,
        }
    }

    /// The text of a string value.
    pub open spec fn text(self) -> Option<Seq<char>> {
        match self {
            Json::String(s) => Some(s@),
            _ => None,
        }
    }

    /// The value of a number that is an integer in `0..=u64::MAX`.
    pub open spec fn unsigned(self) -> Option<u64> {
        match self {
            Json::Number(Number::Unsigned(n)) => Some(n),
            _ => None,
        }
    }

    /// The elements of an array.
    pub fn as_array(&self) -> (r: Option<&Vec<Json>>)
        ensures
            match *self {
                Json::Array(items) => r == Some(&items),
                _ => r is None,
            },
    {
        match self {
            Json::Array(items) => Some(items),
            _ => None,
        }
    }

    /// The members of an object.
    pub fn as_object(&self) -> (r: Option<&Vec<(String, Json)>>)
        ensures
            match *self {
                Json::Object(members) => r == Some(&members),
                _ => r is None,
            },
    {
        match self {
            Json::Object(members) => Some(members),
            _ => None,
        }
    }

    /// The text of a string value.
    pub fn as_str(&self) -> (r: Option<&String>)
        ensures
            match r {
                Some(s) => self.text() == Some(s@),
                None => self.text() is None,
            },
    {
        match self {
            Json::String(s) => Some(s),
            _ => None,
        }
    }

    /// The value of a number that is an integer in `0..=u64::MAX`.
    pub fn as_u64(&self) -> (r: Option<u64>)
        ensures
            r == self.unsigned(),
    {
        match self {
            Json::Number(Number::Unsigned(n)) => Some(*n),
            _ => None,
        }
    }

    /// The member named `key`, where `self` is an object that has one.
    pub fn get(&self, key: &str) -> (r: Option<&Json>)
        ensures
            match r {
                Some(v) => self.field(key@) == Some(*v),
                None => self.field(key@) is None,
            },
    {
        match self {
            Json::Object(members) => find_member(members, key),
            _ => None,
        }
    }
}

/// Calls `<str as PartialEq>::eq`: true exactly when the two texts are equal.
#[verifier::external_body]
pub(crate) fn same_text(a: &str, b: &str) -> (r: bool)
    ensures
        r == (a@ == b@),
{
    a == b
}

proof fn lemma_member_skip(members: Seq<(String, Json)>, key: Seq<char>, i: int)
    requires
        0 <= i < members.len(),
        members[i].0@ != key,
    ensures
        member(members.skip(i), key) == member(members.skip(i + 1), key),
{
    assert(members.skip(i).drop_first() =~= members.skip(i + 1));
}

/// The value of the first member named `key`.
pub fn find_member<'a>(members: &'a Vec<(String, Json)>, key: &str) -> (r: Option<&'a Json>)
    ensures
        match r {
            Some(v) => member(members@, key@) == Some(*v),
            None => member(members@, key@) is None,
        },
{
    let mut i: usize = 0;
    assert(members@.skip(0) =~= members@);
    while i < members.len()
        invariant
            i <= members@.len(),
            member(members@, key@) == member(members@.skip(i as int), key@),
        decreases members.len() - i,
    {
        if same_text(members[i].0.as_str(), key) {
            assert(members@.skip(i as int)[0] == members@[i as int]);
            return Some(&members[i].1);
        }
        proof {
            lemma_member_skip(members@, key@, i as int);
        }
        i += 1;
    }
    None
}

/// The names of the members of an object read so far. The parser records each name as it
/// reads it and refuses the document at the first name that was recorded before.
pub struct MemberNames {
    names: StringHashSet,
}

impl View for MemberNames {
    type V = Set<Seq<char>>;

    closed spec fn view(&self) -> Set<Seq<char>> {
        self.names@
    }
}

impl MemberNames {
    /// No name recorded.
    pub fn new() -> (r: Self)
        ensures
            r@ == Set::<Seq<char>>::empty(),
    {
        MemberNames { names: StringHashSet::new() }
    }

    /// Records `name`; true exactly when it was not recorded before.
    pub fn add(&mut self, name: &str) -> (r: bool)
        ensures
            final(self)@ == old(self)@.insert(name@),
            r == !old(self)@.contains(name@),
    {
        self.names.insert(String::from_str(name))
    }
}

} // verus!
