//! JSON documents and their text.

use vstd::prelude::*;

verus! {

/// `serde_json::Value`, a JSON document.
#[verifier::external_type_specification]
#[verifier::external_body]
pub struct ExJsonValue(serde_json::Value);

/// The contents of a JSON document. The members of an object stand in the order in which they were
/// inserted: the feature `preserve_order` of `serde_json` is switched on.
pub enum JsonTree {
    Null,
    Text(Seq<char>),
    Number(int),
    List(Seq<JsonTree>),
    Object(Seq<(Seq<char>, JsonTree)>),
}

/// What a `serde_json::Value` holds.
pub uninterp spec fn json_tree(value: serde_json::Value) -> JsonTree;

/// The bytes that `serde_json::to_vec` writes for a document with the given contents.
pub uninterp spec fn json_bytes(tree: JsonTree) -> Seq<u8>;

/// The contents of a list of documents.
pub open spec fn json_trees(values: Seq<serde_json::Value>) -> Seq<JsonTree> {
    Seq::new(values.len(), |i: int| json_tree(values[i]))
}

/// The names and contents of a list of object members.
pub open spec fn json_members(members: Seq<(String, serde_json::Value)>) -> Seq<
    (Seq<char>, JsonTree),
> {
    Seq::new(members.len(), |i: int| (members[i].0@, json_tree(members[i].1)))
}

/// No two members have one name.
pub open spec fn distinct_names(members: Seq<(Seq<char>, JsonTree)>) -> bool {
    forall|i: int, j: int|
        0 <= i < j < members.len() ==> #[trigger] members[i].0 != #[trigger] members[j].0
}

/// The member of an object with the name.
pub open spec fn member(tree: JsonTree, name: Seq<char>) -> Option<JsonTree> {
    match tree {
        JsonTree::Object(members) => member_of(members, name),
        _ => None,
    }
}

/// The first member with the name.
pub open spec fn member_of(members: Seq<(Seq<char>, JsonTree)>, name: Seq<char>) -> Option<JsonTree>
    decreases members.len(),
{
    if members.len() == 0 {
        None
    } else if members[0].0 == name {
        Some(members[0].1)
    } else {
        member_of(members.drop_first(), name)
    }
}

/// Where names are distinct, a member is found by its name.
pub proof fn lemma_member_found(members: Seq<(Seq<char>, JsonTree)>, i: int)
    requires
        distinct_names(members),
        0 <= i < members.len(),
    ensures
        member_of(members, members[i].0) == Some(members[i].1),
    decreases members.len(),
{
    if i > 0 {
        let rest = members.drop_first();
        assert forall|j: int, k: int| 0 <= j < k < rest.len() implies #[trigger] rest[j].0
            != #[trigger] rest[k].0 by {
            assert(rest[j] == members[j + 1] && rest[k] == members[k + 1]);
        }
        lemma_member_found(rest, i - 1);
        assert(rest[i - 1] == members[i]);
        assert(members[0].0 != members[i].0);
    }
}

/// `serde_json::Value::Null` is the document `null`.
#[verifier::external_body]
pub(crate) fn json_null() -> (res: serde_json::Value)
    ensures
        json_tree(res) == JsonTree::Null,
{
    serde_json::Value::Null
}

/// `serde_json::Value::from` on a `String` is a JSON string with that text.
#[verifier::external_body]
pub(crate) fn json_text(text: String) -> (res: serde_json::Value)
    ensures
        json_tree(res) == JsonTree::Text(text@),
{
    serde_json::Value::from(text)
}

/// `serde_json::Value::from` on an `i64` is a JSON number with that value.
#[verifier::external_body]
pub(crate) fn json_number(number: i64) -> (res: serde_json::Value)
    ensures
        json_tree(res) == JsonTree::Number(number as int),
{
    serde_json::Value::from(number)
}

/// `serde_json::Value::from` on a `Vec` of documents is a JSON array of them, in their order.
#[verifier::external_body]
pub(crate) fn json_list(values: Vec<serde_json::Value>) -> (res: serde_json::Value)
    ensures
        json_tree(res) == JsonTree::List(json_trees(values@)),
{
    serde_json::Value::from(values)
}

/// `serde_json::Value::from_iter` on pairs of a name and a document is a JSON object with one member
/// for each pair, in their order, where no name occurs twice.
#[verifier::external_body]
pub(crate) fn json_object(members: Vec<(String, serde_json::Value)>) -> (res: serde_json::Value)
    requires
        distinct_names(json_members(members@)),
    ensures
        json_tree(res) == JsonTree::Object(json_members(members@)),
{
    serde_json::Value::from_iter(members)
}

/// `serde_json::to_vec` writes a document as text. It fails only on a map whose keys are not strings,
/// which a `serde_json::Value` cannot hold. What it writes is named, not spelt out.
#[verifier::external_body]
pub(crate) fn json_to_vec(value: &serde_json::Value) -> (res: Vec<u8>)
    ensures
        res@ == json_bytes(json_tree(*value)),
{
    serde_json::to_vec(value).expect("a JSON document is always written")
}

/// Adds a member to an object that is being written.
pub(crate) fn add_member(
    members: &mut Vec<(String, serde_json::Value)>,
    name: &str,
    value: serde_json::Value,
)
    ensures
        json_members(final(members)@) == json_members(old(members)@).push(
            (name@, json_tree(value)),
        ),
{
    let ghost before = members@;
    members.push((name.to_string(), value));
    assert(json_members(members@) =~= json_members(before).push((name@, json_tree(value))));
}

} // verus!
