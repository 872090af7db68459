//! Values read from the store.
//!
//! A key's value arrives tagged by its store type.  Only plain string
//! values can be edited; composite values and absent keys leave the editor
//! idle.

use vstd::prelude::*;

verus! {

/// A value read from the store.
#[derive(Debug, Clone)]
pub enum RedisValue {
    String(String),
    List(Vec<String>),
    SetValue(Vec<String>),
    ZSet(Vec<(String, String)>),
    Hash(Vec<(String, String)>),
    Null,
}

/// The type a store reports for a key; `Absent` stands for a key the store
/// does not hold.
#[derive(Debug, Clone, Copy, PartialEq, Eq, Structural)]
pub enum TypeTag {
    String,
    List,
    SetType,
    SortedSet,
    Hash,
    Absent,
}

/// The tag that a type-name reply denotes.
pub open spec fn spec_type_tag(s: Seq<char>) -> TypeTag {
    if s == "string"@ {
        TypeTag::String
    } else if s == "list"@ {
        TypeTag::List
    } else if s == "set"@ {
        TypeTag::SetType
    } else if s == "zset"@ {
        TypeTag::SortedSet
    } else if s == "hash"@ {
        TypeTag::Hash
    } else {
        TypeTag::Absent
    }
}

/// Whether two string slices hold the same characters.
fn str_eq(a: &str, b: &str) -> (r: bool)
    ensures
        r == (a@ == b@),
{
    let n = a.unicode_len();
    if n != b.unicode_len() {
        proof {
            assert(a@.len() != b@.len());
        }
        return false;
    }
    let mut i: usize = 0;
    while i < n
        invariant
            i <= n,
            n == a@.len(),
            n == b@.len(),
            forall|m: int| 0 <= m < i ==> a@[m] == b@[m],
        decreases n - i,
    {
        if a.get_char(i) != b.get_char(i) {
            return false;
        }
        i += 1;
    }
    proof {
        assert(a@ =~= b@);
    }
    true
}

/// Classifies the type-name reply of a store's type query.
pub fn type_tag_of(name: &str) -> (t: TypeTag)
    ensures
        t == spec_type_tag(name@),
{
    if str_eq(name, "string") {
        TypeTag::String
    } else if str_eq(name, "list") {
        TypeTag::List
    } else if str_eq(name, "set") {
        TypeTag::SetType
    } else if str_eq(name, "zset") {
        TypeTag::SortedSet
    } else if str_eq(name, "hash") {
        TypeTag::Hash
    } else {
        TypeTag::Absent
    }
}

} // verus!
