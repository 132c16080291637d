//! JSON values as trees.

use vstd::prelude::*;
use crate::decimal::Decimal;

verus! {

/// A JSON value as a mathematical tree. Texts are kept as the bytes of their
/// UTF-8 form, numbers as the bytes of their literal, object members as
/// pairs of name and value in the order of the document.
pub enum Json {
    Null,
    Bool(bool),
    Number(Seq<u8>),
    Text(Seq<u8>),
    Array(Seq<Json>),
    Object(Seq<(Seq<u8>, Json)>),
}

/// A JSON value in memory.
#[derive(Debug, PartialEq, Eq)]
pub enum JsonValue {
    Null,
    Bool(bool),
    Number(Decimal),
    Text(Vec<u8>),
    Array(Vec<JsonValue>),
    Object(Vec<JsonMember>),
}

/// One member of an object in memory: a name and the value under it.
#[derive(Debug, PartialEq, Eq)]
pub struct JsonMember {
    pub name: Vec<u8>,
    pub value: JsonValue,
}

/// The value under `name` among the members of an object: that of the last
/// member so named, as a later member overrides an earlier one.
pub open spec fn member(members: Seq<(Seq<u8>, Json)>, name: Seq<u8>) -> Option<Json>
    decreases members.len(),
{
    if members.len() == 0 {
        None
    } else if members.last().0 == name {
        Some(members.last().1)
    } else {
        member(members.drop_last(), name)
    }
}

impl Json {
    /// The value under `name`, where this is an object that has such a member.
    pub open spec fn get(self, name: Seq<u8>) -> Option<Json> {
        match self {
            Json::Object(members) => member(members, name),
            _ => None,
        }
    }
}

/// Whether two runs of bytes are the same.
pub fn same_bytes(a: &[u8], b: &[u8]) -> (same: bool)
    ensures
        same == (a@ == b@),
{
    if a.len() != b.len() {
        return false;
    }
    let mut k: usize = 0;
    while k < a.len()
        invariant
            k <= a.len(),
            a.len() == b.len(),
            forall|n: int| 0 <= n < k ==> a@[n] == b@[n],
        decreases a.len() - k,
    {
        if a[k] != b[k] {
            return false;
        }
        k += 1;
    }
    assert(a@ =~= b@);
    true
}

impl JsonValue {
    /// The value under `name`, where this is an object that has such a member.
    pub fn get(&self, name: &[u8]) -> (found: Option<&JsonValue>)
        ensures
            found is Some <==> self@.get(name@) is Some,
            found matches Some(value) ==> self@.get(name@) == Some(value@),
    {
        match self {
            JsonValue::Object(members) => {
                proof {
                    lemma_object_view(*members);
                }
                let ghost all = member_views(members@);
                let mut k: usize = members.len();
                assert(all.subrange(0, k as int) =~= all);
                while k > 0
                    invariant
                        k <= members.len(),
                        all == member_views(members@),
                        self@ == Json::Object(all),
                        member(all, name@) == member(all.subrange(0, k as int), name@),
                    decreases k,
                {
                    k -= 1;
                    assert(all.subrange(0, k + 1).drop_last() =~= all.subrange(0, k as int));
                    assert(all.subrange(0, k + 1).last() == (
                        members[k as int].name@,
                        members[k as int].value@,
                    ));
                    if same_bytes(members[k].name.as_slice(), name) {
                        return Some(&members[k].value);
                    }
                }
                None
            },
            _ => None,
        }
    }

    /// The tree that the value stands for.
    pub open spec fn tree(self) -> Json
        decreases self,
    {
        match self {
            JsonValue::Null => Json::Null,
            JsonValue::Bool(b) => Json::Bool(b),
            JsonValue::Number(literal) => Json::Number(literal@),
            JsonValue::Text(text) => Json::Text(text@),
            JsonValue::Array(items) => Json::Array(
                Seq::new(
                    items.len() as nat,
                    |i: int|
                        if 0 <= i < items.len() {
                            items[i].tree()
                        } else {
                            Json::Null
                        },
                ),
            ),
            JsonValue::Object(members) => Json::Object(
                Seq::new(
                    members.len() as nat,
                    |i: int|
                        if 0 <= i < members.len() {
                            (members[i].name@, members[i].value.tree())
                        } else {
                            (Seq::empty(), Json::Null)
                        },
                ),
            ),
        }
    }
}

impl View for JsonValue {
    type V = Json;

    open spec fn view(&self) -> Json {
        self.tree()
    }
}

/// The trees of a run of values.
pub open spec fn item_views(items: Seq<JsonValue>) -> Seq<Json> {
    Seq::new(items.len(), |i: int| items[i]@)
}

/// The names and trees of a run of members.
pub open spec fn member_views(members: Seq<JsonMember>) -> Seq<(Seq<u8>, Json)> {
    Seq::new(members.len(), |i: int| (members[i].name@, members[i].value@))
}

/// An array in memory stands for the array of its items' trees.
pub proof fn lemma_array_view(items: Vec<JsonValue>)
    ensures
        JsonValue::Array(items)@ == Json::Array(item_views(items@)),
{
    assert(JsonValue::Array(items)@->Array_0 =~= item_views(items@));
}

/// An object in memory stands for the object of its members' names and trees.
pub proof fn lemma_object_view(members: Vec<JsonMember>)
    ensures
        JsonValue::Object(members)@ == Json::Object(member_views(members@)),
{
    assert(JsonValue::Object(members)@->Object_0 =~= member_views(members@));
}

} // verus!
