//! What the parts of JSON values are.

use vstd::prelude::*;

use crate::json::Json;

verus! {

/// An object gives the value of the first member with the key, whatever its key
/// and value are.
pub proof fn a_member_is_found(members: Vec<(String, Json)>, key: Seq<char>, i: int)
    requires
        0 <= i < members@.len(),
        members@[i].0@ == key,
        forall|j: int| 0 <= j < i ==> (#[trigger] members@[j]).0@ != key,
    ensures
        Json::Object(members).member(key) == members@[i].1,
{
    lemma_lookup(members@, key, i);
}

proof fn lemma_lookup(members: Seq<(String, Json)>, key: Seq<char>, i: int)
    requires
        0 <= i < members.len(),
        members[i].0@ == key,
        forall|j: int| 0 <= j < i ==> (#[trigger] members[j]).0@ != key,
    ensures
        crate::json::lookup(members, key) == members[i].1,
    decreases i,
{
    if i > 0 {
        let rest = members.skip(1);
        assert(members[0].0@ != key);
        assert forall|j: int| 0 <= j < i - 1 implies (#[trigger] rest[j]).0@ != key by {
            assert(rest[j] == members[j + 1]);
        }
        lemma_lookup(rest, key, i - 1);
    }
}

/// A value without a member of the key gives null for it.
pub proof fn an_absent_member_is_null(value: Json, key: Seq<char>)
    requires
        match value {
            Json::Object(members) => forall|j: int|
                0 <= j < members@.len() ==> (#[trigger] members@[j]).0@ != key,
            _ => true,
        },
    ensures
        value.member(key) == Json::Null,
{
    if let Json::Object(members) = value {
        lemma_lookup_nothing(members@, key);
    }
}

proof fn lemma_lookup_nothing(members: Seq<(String, Json)>, key: Seq<char>)
    requires
        forall|j: int| 0 <= j < members.len() ==> (#[trigger] members[j]).0@ != key,
    ensures
        crate::json::lookup(members, key) == Json::Null,
    decreases members.len(),
{
    if members.len() > 0 {
        let rest = members.skip(1);
        assert(members[0].0@ != key);
        assert forall|j: int| 0 <= j < rest.len() implies (#[trigger] rest[j]).0@ != key by {
            assert(rest[j] == members[j + 1]);
        }
        lemma_lookup_nothing(rest, key);
    }
}

/// Strings have their text, arrays their elements, objects their members; no
/// other value has any of these.
pub proof fn parts_of_a_value(s: String, items: Vec<Json>, members: Vec<(String, Json)>, value: Json)
    ensures
        Json::Text(s).text() == Some(s@),
        value !is Text ==> value.text() is None,
        Json::Array(items).elements() == items@,
        value !is Array ==> value.elements().len() == 0,
        Json::Object(members).members() == members@,
        value !is Object ==> value.members().len() == 0,
{
}

/// The elements of an array are found by their index; beyond it there is null.
pub proof fn elements_are_found_by_index(items: Vec<Json>, value: Json, i: int)
    ensures
        Json::Array(items).element(i) == (if 0 <= i < items@.len() {
            items@[i]
        } else {
            Json::Null
        }),
        value !is Array ==> value.element(i) == Json::Null,
{
}

/// Integers have their value, in either reading where they are in its range; no
/// other value has one.
pub proof fn integers_have_their_value(n: u64, m: i64, value: Json)
    ensures
        Json::Unsigned(n).unsigned() == Some(n),
        Json::Negative(m).unsigned() is None,
        value !is Unsigned ==> value.unsigned() is None,
        n <= i64::MAX ==> Json::Unsigned(n).signed() is Some && Json::Unsigned(n).signed()->0 == n,
        n > i64::MAX ==> Json::Unsigned(n).signed() is None,
        Json::Negative(m).signed() == Some(m),
        value !is Unsigned && value !is Negative ==> value.signed() is None,
{
}

} // verus!
