//! The tagged binary tree that the encoders build, as the `nbt` crate holds it,
//! and the mathematical model that the contracts use for it.
//!
//! The tree types belong to the `nbt` crate. Verus cannot look inside them, so
//! this module names what they hold (`value_tag`, `blob_content`, `blob_title`)
//! and states, without proof, what each constructor and `Blob::insert` do in
//! terms of those names.

use nbt::{Blob, Value};
use vstd::prelude::*;

verus! {

#[verifier::external_type_specification]
#[verifier::external_body]
pub struct ExValue(nbt::Value);

#[verifier::external_type_specification]
#[verifier::external_body]
pub struct ExBlob(nbt::Blob);

#[verifier::external_type_specification]
#[verifier::external_body]
pub struct ExError(nbt::Error);

/// The model of one tree node. Floating-point payloads are kept as their
/// IEEE-754 bit patterns.
pub enum Tag {
    Byte(i8),
    Short(i16),
    Int(i32),
    Long(i64),
    Float(u32),
    Double(u64),
    ByteArray(Seq<i8>),
    Text(Seq<char>),
    List(Seq<Tag>),
    Compound(Map<Seq<char>, Tag>),
    IntArray(Seq<i32>),
    LongArray(Seq<i64>),
}

impl Tag {
    /// The type id that the binary format writes for this kind of node.
    pub open spec fn id(self) -> int {
        match self {
            Tag::Byte(_) => 1,
            Tag::Short(_) => 2,
            Tag::Int(_) => 3,
            Tag::Long(_) => 4,
            Tag::Float(_) => 5,
            Tag::Double(_) => 6,
            Tag::ByteArray(_) => 7,
            Tag::Text(_) => 8,
            Tag::List(_) => 9,
            Tag::Compound(_) => 10,
            Tag::IntArray(_) => 11,
            Tag::LongArray(_) => 12,
        }
    }

    /// A list whose elements are not all of one kind. The format has no way to
    /// write such a list.
    pub open spec fn is_mixed_list(self) -> bool {
        self matches Tag::List(items) && exists|i: int|
            0 <= i < items.len() && #[trigger] items[i].id() != items[0].id()
    }
}

/// The node that an `nbt::Value` holds.
pub uninterp spec fn value_tag(value: Value) -> Tag;

/// The named fields of an `nbt::Blob`.
pub uninterp spec fn blob_content(blob: Blob) -> Map<Seq<char>, Tag>;

/// The root name of an `nbt::Blob`.
pub uninterp spec fn blob_title(blob: Blob) -> Seq<char>;

/// A compound without fields.
pub open spec fn no_fields() -> Map<Seq<char>, Tag> {
    Map::empty()
}

/// The nodes held by a sequence of values, in order.
pub open spec fn tags_of(values: Seq<Value>) -> Seq<Tag> {
    values.map_values(|v: Value| value_tag(v))
}

/// `nbt::Blob::new`: a blob with the empty root name and no fields.
pub assume_specification[ Blob::new ]() -> (blob: Blob)
    ensures
        blob_title(blob) == Seq::<char>::empty(),
        blob_content(blob) == no_fields(),
;

/// `nbt::Blob::insert`: refuses a list of mixed kinds with an error and leaves
/// the blob as it was; otherwise stores `value` under `name`, replacing what
/// was stored under that name before, and keeps the root name.
#[verifier::external_body]
pub(crate) fn blob_insert(blob: &mut Blob, name: &str, value: Value) -> (outcome: Result<
    (),
    nbt::Error,
>)
    ensures
        outcome is Err <==> value_tag(value).is_mixed_list(),
        blob_title(*final(blob)) == blob_title(*old(blob)),
        blob_content(*final(blob)) == if outcome is Ok {
            blob_content(*old(blob)).insert(name@, value_tag(value))
        } else {
            blob_content(*old(blob))
        },
{
    blob.insert(name, value)
}

/// `nbt::Value::Short`.
#[verifier::external_body]
pub(crate) fn short_value(n: i16) -> (value: Value)
    ensures
        value_tag(value) == Tag::Short(n),
{
    Value::Short(n)
}

/// `nbt::Value::Int`.
#[verifier::external_body]
pub(crate) fn int_value(n: i32) -> (value: Value)
    ensures
        value_tag(value) == Tag::Int(n),
{
    Value::Int(n)
}

/// `nbt::Value::Long`.
#[verifier::external_body]
pub(crate) fn long_value(n: i64) -> (value: Value)
    ensures
        value_tag(value) == Tag::Long(n),
{
    Value::Long(n)
}

/// `nbt::Value::String`, holding a copy of `text`.
#[verifier::external_body]
pub(crate) fn string_value(text: &str) -> (value: Value)
    ensures
        value_tag(value) == Tag::Text(text@),
{
    Value::String(text.to_string())
}

/// `nbt::Value::ByteArray`.
#[verifier::external_body]
pub(crate) fn byte_array_value(bytes: Vec<i8>) -> (value: Value)
    ensures
        value_tag(value) == Tag::ByteArray(bytes@),
{
    Value::ByteArray(bytes)
}

/// `nbt::Value::List`, holding `items` in their order.
#[verifier::external_body]
pub(crate) fn list_value(items: Vec<Value>) -> (value: Value)
    ensures
        value_tag(value) == Tag::List(tags_of(items@)),
{
    Value::List(items)
}

/// `nbt::Value::Compound` over an empty map.
#[verifier::external_body]
pub(crate) fn empty_compound() -> (value: Value)
    ensures
        value_tag(value) == Tag::Compound(no_fields()),
{
    Value::Compound(nbt::Map::new())
}

/// Inserts into the map of an `nbt::Value::Compound`: `value` is stored under
/// `name`, replacing what was stored under that name before. A node of another
/// kind comes back as it was.
#[verifier::external_body]
pub(crate) fn compound_with(base: Value, name: &str, value: Value) -> (out: Value)
    ensures
        match value_tag(base) {
            Tag::Compound(fields) => value_tag(out) == Tag::Compound(
                fields.insert(name@, value_tag(value)),
            ),
            _ => value_tag(out) == value_tag(base),
        },
{
    match base {
        Value::Compound(mut fields) => {
            fields.insert(name.to_string(), value);
            Value::Compound(fields)
        },
        other => other,
    }
}

/// A list of integer nodes, one for each element of `v`.
pub(crate) fn list_from_intvec(v: Vec<i32>) -> (value: Value)
    ensures
        value_tag(value) == Tag::List(v@.map_values(|n: i32| Tag::Int(n))),
{
    let mut items: Vec<Value> = Vec::new();
    let mut i: usize = 0;
    while i < v.len()
        invariant
            i <= v.len(),
            items@.len() == i,
            tags_of(items@) == v@.take(i as int).map_values(|n: i32| Tag::Int(n)),
        decreases v.len() - i,
    {
        let item = int_value(v[i]);
        let ghost before = items@;
        items.push(item);
        proof {
            let want = v@.take(i + 1).map_values(|n: i32| Tag::Int(n));
            assert forall|j: int| 0 <= j < want.len() implies tags_of(items@)[j] == want[j] by {
                if j < i {
                    assert(tags_of(before)[j] == value_tag(before[j]));
                    assert(v@.take(i as int)[j] == v@[j]);
                }
            }
            assert(tags_of(items@) =~= want);
        }
        i += 1;
    }
    proof {
        assert(v@.take(i as int) =~= v@);
    }
    list_value(items)
}

} // verus!
