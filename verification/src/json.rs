use vstd::prelude::*;
use crate::text::str_eq;

verus! {

/// A JSON number: either an integer, or a real held as the bits of its
/// IEEE-754 double.
#[derive(Clone, Copy, Debug, PartialEq, Eq)]
pub enum JsonNumber {
    Integer(i128),
    Real(u64),
}

/// One `key: value` member of a JSON object.
#[derive(Debug)]
pub struct Member {
    pub key: String,
    pub value: Json,
}

/// A parsed JSON tree, as a JSON parser hands it over. The members of an
/// object are kept in the order they were written; where a key occurs more
/// than once the last occurrence counts.
#[derive(Debug)]
pub enum Json {
    Null,
    Bool(bool),
    Number(JsonNumber),
    String(String),
    Array(Vec<Json>),
    Object(Vec<Member>),
}

/// The value that an object's members give to `key`: that of the last member
/// with this key, if there is one.
pub open spec fn member_value(members: Seq<Member>, key: Seq<char>) -> Option<Json>
    decreases members.len(),
{
    if members.len() == 0 {
        None
    } else if members.last().key@ == key {
        Some(members.last().value)
    } else {
        member_value(members.drop_last(), key)
    }
}

/// Looks a key up among an object's members.
pub fn find_member<'a>(members: &'a Vec<Member>, key: &str) -> (r: Option<&'a Json>)
    ensures
        match r {
            Some(j) => member_value(members@, key@) == Some(*j),
            None => member_value(members@, key@).is_none(),
        },
{
    let mut i: usize = members.len();
    assert(members@.take(i as int) =~= members@);
    while i > 0
        invariant
            i <= members.len(),
            member_value(members@, key@) == member_value(members@.take(i as int), key@),
        decreases i,
    {
        let ghost prefix = members@.take(i as int);
        assert(prefix.drop_last() =~= members@.take(i - 1));
        i -= 1;
        if str_eq(members[i].key.as_str(), key) {
            return Some(&members[i].value);
        }
    }
    None
}

} // verus!
