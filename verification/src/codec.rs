//! The canonical binary encoding (DAG-CBOR) of values, done by the
//! `serde_ipld_dagcbor` crate.

use crate::cid::{cid_from_bytes, Cid};
use crate::value::{
    data_of, dict_data, lemma_dict_data, lemma_list_data, list_data, Data, Float, Value,
};
use vstd::string::*;
use cid::multihash::Multihash;
use cid::Cid as OutsideCid;
use cid::Version;
use ipld_core::ipld::Ipld;
use serde_ipld_dagcbor::{DecodeError, EncodeError};
use std::collections::TryReserveError;
use std::convert::Infallible;
use vstd::prelude::*;

verus! {

/// The encoder's error. Nothing is read from it.
#[verifier::external_type_specification]
#[verifier::external_body]
#[verifier::reject_recursive_types(E)]
pub struct ExEncodeError<E>(EncodeError<E>);

/// The decoder's error. Nothing is read from it.
#[verifier::external_type_specification]
#[verifier::external_body]
#[verifier::reject_recursive_types(E)]
pub struct ExDecodeError<E>(DecodeError<E>);

/// The entries, whose keys differ from one another, as the codec's sorted
/// map (a `BTreeMap` keyed by `String`) holds and walks them once they have
/// been collected into it.
pub uninterp spec fn sorted_entries(entries: Seq<(Seq<char>, Data)>) -> Seq<(Seq<char>, Data)>;

/// The bytes that `serde_ipld_dagcbor::to_vec` gives for a codec value that
/// holds `data`; `None` where it reports an error.
pub uninterp spec fn dagcbor_bytes(data: Data) -> Option<Seq<u8>>;

/// The value that canonical bytes decode to, as
/// `serde_ipld_dagcbor::from_slice` reads it; `None` where the bytes are not
/// a single well-formed item of the encoding.
pub uninterp spec fn dagcbor_decode(bytes: Seq<u8>) -> Option<Data>;

/// The data as the codec holds it: every dictionary as a sorted map, and
/// every float as what its codec value holds.
pub open spec fn canonical(data: Data) -> Data
    decreases data,
{
    match data {
        Data::List(items) => Data::List(canonical_items(items)),
        Data::Dict(entries) => Data::Dict(sorted_entries(canonical_entries(entries))),
        Data::Float(tree) => data_of(tree),
        _ => data,
    }
}

/// [`canonical`] on each item of a list.
pub open spec fn canonical_items(items: Seq<Data>) -> Seq<Data>
    decreases items,
{
    if items.len() == 0 {
        Seq::empty()
    } else {
        canonical_items(items.drop_last()).push(canonical(items.last()))
    }
}

/// [`canonical`] on the value of each entry of a dictionary.
pub open spec fn canonical_entries(entries: Seq<(Seq<char>, Data)>) -> Seq<(Seq<char>, Data)>
    decreases entries,
{
    if entries.len() == 0 {
        Seq::empty()
    } else {
        canonical_entries(entries.drop_last()).push(
            (entries.last().0, canonical(entries.last().1)),
        )
    }
}

/// Whether no two entries have the same key.
pub open spec fn keys_distinct(entries: Seq<(Seq<char>, Data)>) -> bool {
    forall|i: int, j: int|
        #![trigger entries[i], entries[j]]
        0 <= i < j < entries.len() ==> entries[i].0 != entries[j].0
}

/// Whether no dictionary of the value holds a key twice. The encoding
/// admits each key once.
pub open spec fn no_repeated_key(data: Data) -> bool
    decreases data,
{
    match data {
        Data::List(items) => forall|i: int|
            0 <= i < items.len() ==> no_repeated_key(#[trigger] items[i]),
        Data::Dict(entries) => keys_distinct(entries) && forall|i: int|
            0 <= i < entries.len() ==> no_repeated_key((#[trigger] entries[i]).1),
        _ => true,
    }
}

/// The canonical encoding of `data`; `None` where the value cannot be
/// encoded: a dictionary that holds a key twice, or a number that the
/// encoding does not admit.
pub open spec fn dagcbor_encode(data: Data) -> Option<Seq<u8>> {
    if no_repeated_key(data) {
        dagcbor_bytes(canonical(data))
    } else {
        None
    }
}

/// [`canonical_items`] holds the canonical form of each item at the item's
/// place.
pub proof fn lemma_canonical_items(items: Seq<Data>)
    ensures
        canonical_items(items).len() == items.len(),
        forall|i: int|
            0 <= i < items.len() ==> (#[trigger] canonical_items(items)[i]) == canonical(
                items[i],
            ),
    decreases items.len(),
{
    if items.len() > 0 {
        lemma_canonical_items(items.drop_last());
        assert(canonical_items(items) == canonical_items(items.drop_last()).push(
            canonical(items.last()),
        ));
    } else {
        assert(canonical_items(items) == Seq::<Data>::empty());
    }
}

/// [`canonical_entries`] holds each entry's key with the canonical form of
/// its value at the entry's place.
pub proof fn lemma_canonical_entries(entries: Seq<(Seq<char>, Data)>)
    ensures
        canonical_entries(entries).len() == entries.len(),
        forall|i: int|
            0 <= i < entries.len() ==> (#[trigger] canonical_entries(entries)[i]) == (
                entries[i].0,
                canonical(entries[i].1),
            ),
    decreases entries.len(),
{
    if entries.len() > 0 {
        lemma_canonical_entries(entries.drop_last());
        assert(canonical_entries(entries) == canonical_entries(entries.drop_last()).push(
            (entries.last().0, canonical(entries.last().1)),
        ));
    } else {
        assert(canonical_entries(entries) == Seq::<(Seq<char>, Data)>::empty());
    }
}

/// Why a value could not be encoded or bytes could not be decoded.
#[derive(Clone, Copy, Debug, PartialEq, Eq, Structural)]
pub enum CodecError {
    /// The value holds something that the encoding does not admit: a key
    /// twice in one dictionary, or a number out of range.
    NotEncodable,
    /// The bytes are not one well-formed item of the encoding.
    Malformed,
}

/// Builds `Ipld::Null`.
#[verifier::external_body]
fn null_tree() -> (tree: Ipld)
    ensures
        data_of(tree) == Data::Null,
{
    Ipld::Null
}

/// Builds `Ipld::Bool`.
#[verifier::external_body]
fn bool_tree(b: bool) -> (tree: Ipld)
    ensures
        data_of(tree) == Data::Bool(b),
{
    Ipld::Bool(b)
}

/// Builds `Ipld::Integer`.
#[verifier::external_body]
fn integer_tree(i: i128) -> (tree: Ipld)
    ensures
        data_of(tree) == Data::Integer(i as int),
{
    Ipld::Integer(i)
}

/// Builds `Ipld::String` with a copy of the text.
#[verifier::external_body]
fn text_tree(text: &String) -> (tree: Ipld)
    ensures
        data_of(tree) == Data::Text(text@),
{
    Ipld::String(text.clone())
}

/// Builds `Ipld::Bytes` with a copy of the bytes.
#[verifier::external_body]
fn bytes_tree(bytes: &Vec<u8>) -> (tree: Ipld)
    ensures
        data_of(tree) == Data::Bytes(bytes@),
{
    Ipld::Bytes(bytes.clone())
}

/// Builds `Ipld::Link`. The identifier is rebuilt with `Multihash::wrap`
/// and `cid::Cid::new` from the parts of a valid identifier, which those
/// constructors accept.
#[verifier::external_body]
fn link_tree(cid: &Cid) -> (tree: Ipld)
    ensures
        data_of(tree) == Data::Link(cid@),
{
    let hash = Multihash::wrap(cid.hash_code(), cid.digest()).unwrap();
    let version = Version::try_from(cid.version()).unwrap();
    Ipld::Link(OutsideCid::new(version, cid.codec(), hash).unwrap())
}

/// Builds `Ipld::List` from the items: the list holds what the items hold,
/// in their order.
#[verifier::external_body]
fn list_to_ipld(items: Vec<Ipld>) -> (tree: Ipld)
    ensures
        data_of(tree) == Data::List(Seq::new(items@.len(), |i: int| data_of(items@[i]))),
{
    Ipld::List(items)
}

/// Builds `Ipld::Map` by collecting the entries, whose keys differ from one
/// another, into a `BTreeMap`: the map holds every key with what its value
/// holds, as the sorted map keeps them.
#[verifier::external_body]
fn dict_to_ipld(entries: Vec<(String, Ipld)>) -> (tree: Ipld)
    requires
        forall|i: int, j: int|
            #![trigger entries@[i], entries@[j]]
            0 <= i < j < entries@.len() ==> entries@[i].0@ != entries@[j].0@,
    ensures
        data_of(tree) == Data::Dict(
            sorted_entries(
                Seq::new(entries@.len(), |i: int| (entries@[i].0@, data_of(entries@[i].1))),
            ),
        ),
{
    Ipld::Map(entries.into_iter().collect())
}

/// Whether two entries of a dictionary have the same key.
pub fn has_repeated_key(entries: &Vec<(String, Value)>) -> (repeated: bool)
    ensures
        repeated == !keys_distinct(dict_data(entries@)),
{
    proof {
        lemma_dict_data(entries@);
    }
    let ghost views = dict_data(entries@);
    let mut j: usize = 0;
    while j < entries.len()
        invariant
            0 <= j <= entries@.len(),
            views == dict_data(entries@),
            views.len() == entries@.len(),
            forall|k: int| 0 <= k < entries@.len() ==> (#[trigger] views[k]).0 == entries@[k].0@,
            forall|a: int, b: int|
                #![trigger views[a], views[b]]
                0 <= a < b < j ==> views[a].0 != views[b].0,
        decreases entries@.len() - j,
    {
        let mut i: usize = 0;
        while i < j
            invariant
                0 <= i <= j < entries@.len(),
                views == dict_data(entries@),
                views.len() == entries@.len(),
                forall|k: int|
                    0 <= k < entries@.len() ==> (#[trigger] views[k]).0 == entries@[k].0@,
                forall|a: int| 0 <= a < i ==> (#[trigger] views[a]).0 != views[j as int].0,
            decreases j - i,
        {
            if entries[i].0 == entries[j].0 {
                assert(views[i as int].0 == views[j as int].0);
                return true;
            }
            i = i + 1;
        }
        j = j + 1;
    }
    false
}

/// Builds the codec value that holds the canonical form of `value`; `None`
/// where a dictionary of the value holds a key twice.
fn to_ipld(value: &Value) -> (tree: Option<Ipld>)
    ensures
        tree is Some <==> no_repeated_key(value@),
        tree matches Some(t) ==> data_of(t) == canonical(value@),
    decreases value,
{
    match value {
        Value::Null => Some(null_tree()),
        Value::Bool(b) => Some(bool_tree(*b)),
        Value::Integer(i) => Some(integer_tree(*i)),
        Value::Float(f) => Some(f.to_codec()),
        Value::Text(s) => Some(text_tree(s)),
        Value::Bytes(b) => Some(bytes_tree(b)),
        Value::Link(c) => Some(link_tree(c)),
        Value::List(items) => {
            let mut out: Vec<Ipld> = Vec::new();
            let mut i: usize = 0;
            proof {
                lemma_list_data(items@);
            }
            while i < items.len()
                invariant
                    decreases_to!(value => *items),
                    value == Value::List(*items),
                    0 <= i <= items@.len(),
                    out@.len() == i,
                    list_data(items@).len() == items@.len(),
                    forall|j: int|
                        0 <= j < items@.len() ==> (#[trigger] list_data(items@)[j]) == items@[j]@,
                    forall|j: int| 0 <= j < i ==> no_repeated_key(items@[j]@) && data_of(
                        #[trigger] out@[j],
                    ) == canonical(items@[j]@),
                decreases items@.len() - i,
            {
                assert(decreases_to!(*items => items[i as int]));
                match to_ipld(&items[i]) {
                    Some(item) => {
                        out.push(item);
                    },
                    None => {
                        assert(!no_repeated_key(list_data(items@)[i as int]));
                        return None;
                    },
                }
                i = i + 1;
            }
            proof {
                lemma_canonical_items(list_data(items@));
                assert(Seq::new(out@.len(), |i: int| data_of(out@[i])) =~= canonical_items(
                    list_data(items@),
                ));
                assert forall|k: int| 0 <= k < items@.len() implies no_repeated_key(
                    #[trigger] list_data(items@)[k],
                ) by {
                    assert(data_of(out@[k]) == canonical(items@[k]@));
                }
            }
            Some(list_to_ipld(out))
        },
        Value::Dict(entries) => {
            if has_repeated_key(entries) {
                return None;
            }
            let mut out: Vec<(String, Ipld)> = Vec::new();
            let mut i: usize = 0;
            proof {
                lemma_dict_data(entries@);
            }
            while i < entries.len()
                invariant
                    decreases_to!(value => *entries),
                    value == Value::Dict(*entries),
                    keys_distinct(dict_data(entries@)),
                    0 <= i <= entries@.len(),
                    out@.len() == i,
                    dict_data(entries@).len() == entries@.len(),
                    forall|j: int|
                        0 <= j < entries@.len() ==> (#[trigger] dict_data(entries@)[j]) == (
                            entries@[j].0@,
                            entries@[j].1@,
                        ),
                    forall|j: int|
                        0 <= j < i ==> (#[trigger] out@[j]).0@ == entries@[j].0@
                            && no_repeated_key(entries@[j].1@) && data_of(out@[j].1) == canonical(
                            entries@[j].1@,
                        ),
                decreases entries@.len() - i,
            {
                assert(decreases_to!(*entries => entries[i as int]));
                match to_ipld(&entries[i].1) {
                    Some(item) => {
                        let key = entries[i].0.clone();
                        out.push((key, item));
                    },
                    None => {
                        assert(!no_repeated_key(dict_data(entries@)[i as int].1));
                        return None;
                    },
                }
                i = i + 1;
            }
            proof {
                lemma_canonical_entries(dict_data(entries@));
                assert(Seq::new(out@.len(), |i: int| (out@[i].0@, data_of(out@[i].1)))
                    =~= canonical_entries(dict_data(entries@)));
                assert forall|k: int| 0 <= k < entries@.len() implies no_repeated_key(
                    (#[trigger] dict_data(entries@)[k]).1,
                ) by {
                    assert(out@[k].0@ == entries@[k].0@);
                }
                assert forall|a: int, b: int|
                    #![trigger out@[a], out@[b]]
                    0 <= a < b < out@.len() implies out@[a].0@ != out@[b].0@ by {
                    assert(dict_data(entries@)[a].0 != dict_data(entries@)[b].0);
                }
            }
            Some(dict_to_ipld(out))
        },
    }
}

/// Reads the codec's `Ipld` value variant by variant into a [`Value`],
/// moving the fields; a float is kept as it is, and a link is read back from
/// its binary form. The value holds what the codec value holds.
#[verifier::external_body]
fn from_ipld(tree: Ipld) -> (value: Value)
    ensures
        value@ == data_of(tree),
{
    match tree {
        Ipld::Null => Value::Null,
        Ipld::Bool(b) => Value::Bool(b),
        Ipld::Integer(i) => Value::Integer(i),
        Ipld::Float(f) => Value::Float(Float { tree: Ipld::Float(f) }),
        Ipld::String(s) => Value::Text(s),
        Ipld::Bytes(b) => Value::Bytes(b),
        Ipld::Link(c) => Value::Link(cid_from_bytes(&c.to_bytes()).unwrap()),
        Ipld::List(l) => Value::List(l.into_iter().map(from_ipld).collect()),
        Ipld::Map(m) => Value::Dict(m.into_iter().map(|(k, v)| (k, from_ipld(v))).collect()),
    }
}

/// Calls `serde_ipld_dagcbor::to_vec`. The bytes depend on what the codec
/// value holds alone.
#[verifier::external_body]
fn encode_tree(tree: &Ipld) -> (bytes: Result<Vec<u8>, EncodeError<TryReserveError>>)
    ensures
        bytes is Ok <==> dagcbor_bytes(data_of(*tree)) is Some,
        bytes matches Ok(b) ==> dagcbor_bytes(data_of(*tree)) == Some(b@),
{
    serde_ipld_dagcbor::to_vec(tree)
}

/// Calls `serde_ipld_dagcbor::from_slice`. What the codec value holds
/// depends on the bytes alone.
#[verifier::external_body]
fn decode_tree(bytes: &[u8]) -> (tree: Result<Ipld, DecodeError<Infallible>>)
    ensures
        tree is Ok <==> dagcbor_decode(bytes@) is Some,
        tree matches Ok(t) ==> dagcbor_decode(bytes@) == Some(data_of(t)),
{
    serde_ipld_dagcbor::from_slice(bytes)
}

/// Encodes a value in the canonical binary encoding.
pub fn encode_value(value: &Value) -> (bytes: Result<Vec<u8>, CodecError>)
    ensures
        bytes is Ok <==> dagcbor_encode(value@) is Some,
        bytes matches Ok(b) ==> dagcbor_encode(value@) == Some(b@),
        bytes matches Err(e) ==> e == CodecError::NotEncodable,
{
    let tree = match to_ipld(value) {
        Some(tree) => tree,
        None => {
            return Err(CodecError::NotEncodable);
        },
    };
    match encode_tree(&tree) {
        Ok(b) => Ok(b),
        Err(_) => Err(CodecError::NotEncodable),
    }
}

/// Reads a codec value into a value of the library.
pub fn value_from_codec(tree: Ipld) -> (value: Value)
    ensures
        value@ == data_of(tree),
{
    from_ipld(tree)
}

/// Decodes one value from canonical bytes.
pub fn decode_value(bytes: &[u8]) -> (value: Result<Value, CodecError>)
    ensures
        value is Ok <==> dagcbor_decode(bytes@) is Some,
        value matches Ok(v) ==> dagcbor_decode(bytes@) == Some(v@),
        value matches Err(e) ==> e == CodecError::Malformed,
{
    match decode_tree(bytes) {
        Ok(tree) => Ok(from_ipld(tree)),
        Err(_) => Err(CodecError::Malformed),
    }
}

} // verus!
