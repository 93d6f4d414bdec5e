//! The canonicalizing transcoder: from a decoded value, in which links are
//! written as `{"$link": "<identifier>"}`, to canonical bytes.

use crate::cid::{cid_of_text, parse_cid};
use crate::codec::{dagcbor_encode, encode_value};
use crate::text::str_eq;
use crate::value::{
    dict_data, lemma_dict_data, lemma_list_data, list_data, Data, Value,
};
use vstd::prelude::*;
use vstd::string::*;

verus! {

/// The reserved key that marks a link placeholder.
pub open spec fn link_key() -> Seq<char> {
    "$link"@
}

/// Whether a dictionary is a link placeholder: its only key is `$link`.
pub open spec fn is_link_placeholder(entries: Seq<(Seq<char>, Data)>) -> bool {
    entries.len() == 1 && entries[0].0 == link_key()
}

/// The value with every link placeholder replaced by the link that its text
/// denotes; `None` where a placeholder does not hold the text of an
/// identifier.
pub open spec fn resolve_links(data: Data) -> Option<Data>
    decreases data,
{
    match data {
        Data::List(items) => match resolve_items(items) {
            Some(resolved) => Some(Data::List(resolved)),
            None => None,
        },
        Data::Dict(entries) => if is_link_placeholder(entries) {
            match entries[0].1 {
                Data::Text(text) => match cid_of_text(text) {
                    Some(cid) => Some(Data::Link(cid)),
                    None => None,
                },
                _ => None,
            }
        } else {
            match resolve_entries(entries) {
                Some(resolved) => Some(Data::Dict(resolved)),
                None => None,
            }
        },
        _ => Some(data),
    }
}

/// [`resolve_links`] on each item of a list.
pub open spec fn resolve_items(items: Seq<Data>) -> Option<Seq<Data>>
    decreases items,
{
    if items.len() == 0 {
        Some(Seq::empty())
    } else {
        match (resolve_items(items.drop_last()), resolve_links(items.last())) {
            (Some(front), Some(last)) => Some(front.push(last)),
            _ => None,
        }
    }
}

/// [`resolve_links`] on the value of each entry of a dictionary; the keys
/// and their order stay.
pub open spec fn resolve_entries(entries: Seq<(Seq<char>, Data)>) -> Option<
    Seq<(Seq<char>, Data)>,
>
    decreases entries,
{
    if entries.len() == 0 {
        Some(Seq::empty())
    } else {
        match (resolve_entries(entries.drop_last()), resolve_links(entries.last().1)) {
            (Some(front), Some(last)) => Some(front.push((entries.last().0, last))),
            _ => None,
        }
    }
}

/// Why a value could not be transcoded.
#[derive(Clone, Copy, Debug, PartialEq, Eq, Structural)]
pub enum TranscodeError {
    /// A link placeholder does not hold the text of an identifier.
    InvalidLink,
    /// The value holds something that the canonical encoding does not admit.
    NotEncodable,
}

/// The canonical bytes of a decoded value: links are resolved first, then
/// the result is encoded.
pub open spec fn transcode_bytes(data: Data) -> Result<Seq<u8>, TranscodeError> {
    match resolve_links(data) {
        None => Err(TranscodeError::InvalidLink),
        Some(resolved) => match dagcbor_encode(resolved) {
            Some(bytes) => Ok(bytes),
            None => Err(TranscodeError::NotEncodable),
        },
    }
}

/// A failure among the first items of a list is a failure of the list.
pub proof fn lemma_resolve_items_prefix(items: Seq<Data>, n: int)
    requires
        0 <= n <= items.len(),
        resolve_items(items.take(n)) is None,
    ensures
        resolve_items(items) is None,
    decreases items.len() - n,
{
    if n < items.len() {
        assert(items.take(n + 1).drop_last() =~= items.take(n));
        assert(resolve_items(items.take(n + 1)) is None);
        lemma_resolve_items_prefix(items, n + 1);
    } else {
        assert(items.take(n) =~= items);
    }
}

/// A failure among the first entries of a dictionary is a failure of the
/// dictionary.
pub proof fn lemma_resolve_entries_prefix(entries: Seq<(Seq<char>, Data)>, n: int)
    requires
        0 <= n <= entries.len(),
        resolve_entries(entries.take(n)) is None,
    ensures
        resolve_entries(entries) is None,
    decreases entries.len() - n,
{
    if n < entries.len() {
        assert(entries.take(n + 1).drop_last() =~= entries.take(n));
        assert(resolve_entries(entries.take(n + 1)) is None);
        lemma_resolve_entries_prefix(entries, n + 1);
    } else {
        assert(entries.take(n) =~= entries);
    }
}

/// Replaces every link placeholder in `value` by the link it denotes.
pub fn resolve_value(value: &Value) -> (resolved: Result<Value, TranscodeError>)
    ensures
        resolved is Ok <==> resolve_links(value@) is Some,
        resolved matches Ok(v) ==> resolve_links(value@) == Some(v@),
        resolved matches Err(e) ==> e == TranscodeError::InvalidLink,
    decreases value,
{
    match value {
        Value::List(items) => {
            let mut out: Vec<Value> = Vec::new();
            let mut i: usize = 0;
            proof {
                lemma_list_data(items@);
                assert(list_data(items@).take(0) =~= Seq::<Data>::empty());
                assert(list_data(out@) =~= Seq::<Data>::empty());
            }
            while i < items.len()
                invariant
                    decreases_to!(value => *items),
                    value == Value::List(*items),
                    0 <= i <= items@.len(),
                    list_data(items@).len() == items@.len(),
                    forall|j: int|
                        0 <= j < items@.len() ==> (#[trigger] list_data(items@)[j]) == items@[j]@,
                    resolve_items(list_data(items@).take(i as int)) == Some(list_data(out@)),
                decreases items@.len() - i,
            {
                assert(decreases_to!(*items => items[i as int]));
                let ghost views = list_data(items@);
                proof {
                    assert(views.take(i + 1).drop_last() =~= views.take(i as int));
                    assert(views.take(i + 1).last() == items@[i as int]@);
                }
                match resolve_value(&items[i]) {
                    Ok(item) => {
                        let ghost before = out@;
                        out.push(item);
                        proof {
                            assert(out@.drop_last() =~= before);
                            assert(list_data(out@) == list_data(before).push(item@));
                        }
                    },
                    Err(e) => {
                        proof {
                            assert(resolve_items(views.take(i + 1)) is None);
                            lemma_resolve_items_prefix(views, i + 1);
                        }
                        return Err(e);
                    },
                }
                i = i + 1;
            }
            assert(list_data(items@).take(i as int) =~= list_data(items@));
            Ok(Value::List(out))
        },
        Value::Dict(entries) => {
            proof {
                lemma_dict_data(entries@);
            }
            if entries.len() == 1 && str_eq(entries[0].0.as_str(), "$link") {
                match &entries[0].1 {
                    Value::Text(text) => match parse_cid(text.as_str()) {
                        Some(cid) => Ok(Value::Link(cid)),
                        None => Err(TranscodeError::InvalidLink),
                    },
                    _ => Err(TranscodeError::InvalidLink),
                }
            } else {
                let mut out: Vec<(String, Value)> = Vec::new();
                let mut i: usize = 0;
                proof {
                    assert(dict_data(entries@).take(0) =~= Seq::<(Seq<char>, Data)>::empty());
                    assert(dict_data(out@) =~= Seq::<(Seq<char>, Data)>::empty());
                }
                while i < entries.len()
                    invariant
                        decreases_to!(value => *entries),
                        value == Value::Dict(*entries),
                        0 <= i <= entries@.len(),
                        dict_data(entries@).len() == entries@.len(),
                        forall|j: int|
                            0 <= j < entries@.len() ==> (#[trigger] dict_data(entries@)[j]) == (
                                entries@[j].0@,
                                entries@[j].1@,
                            ),
                        resolve_entries(dict_data(entries@).take(i as int)) == Some(
                            dict_data(out@),
                        ),
                    decreases entries@.len() - i,
                {
                    assert(decreases_to!(*entries => entries[i as int]));
                    let ghost views = dict_data(entries@);
                    proof {
                        assert(views.take(i + 1).drop_last() =~= views.take(i as int));
                        assert(views.take(i + 1).last() == (
                            entries@[i as int].0@,
                            entries@[i as int].1@,
                        ));
                    }
                    match resolve_value(&entries[i].1) {
                        Ok(item) => {
                            let key = entries[i].0.clone();
                            let ghost before = out@;
                            out.push((key, item));
                            proof {
                                assert(out@.drop_last() =~= before);
                                assert(dict_data(out@) == dict_data(before).push((key@, item@)));
                            }
                        },
                        Err(e) => {
                            proof {
                                assert(resolve_entries(views.take(i + 1)) is None);
                                lemma_resolve_entries_prefix(views, i + 1);
                            }
                            return Err(e);
                        },
                    }
                    i = i + 1;
                }
                assert(dict_data(entries@).take(i as int) =~= dict_data(entries@));
                Ok(Value::Dict(out))
            }
        },
        _ => Ok(value.clone()),
    }
}

/// A transcoder over one decoded value. It owns the value, and transcoding
/// consumes it: a second use of the same source does not compile.
pub struct Transcoder {
    source: Value,
}

impl View for Transcoder {
    type V = Data;

    closed spec fn view(&self) -> Data {
        self.source@
    }
}

impl Transcoder {
    /// Constructs a transcoder that owns `source`.
    pub fn new(source: Value) -> (transcoder: Transcoder)
        ensures
            transcoder@ == source@,
    {
        Transcoder { source }
    }

    /// Consumes the transcoder and gives the canonical bytes of its value.
    pub fn serialize(self) -> (bytes: Result<Vec<u8>, TranscodeError>)
        ensures
            bytes matches Ok(b) ==> transcode_bytes(self@) == Ok::<Seq<u8>, TranscodeError>(b@),
            bytes matches Err(e) ==> transcode_bytes(self@) == Err::<Seq<u8>, TranscodeError>(e),
    {
        match resolve_value(&self.source) {
            Err(e) => Err(e),
            Ok(resolved) => match encode_value(&resolved) {
                Ok(b) => Ok(b),
                Err(_) => Err(TranscodeError::NotEncodable),
            },
        }
    }
}

/// Transcodes a decoded value to canonical bytes, consuming it.
pub fn transcode(source: Value) -> (bytes: Result<Vec<u8>, TranscodeError>)
    ensures
        bytes matches Ok(b) ==> transcode_bytes(source@) == Ok::<Seq<u8>, TranscodeError>(b@),
        bytes matches Err(e) ==> transcode_bytes(source@) == Err::<Seq<u8>, TranscodeError>(e),
{
    Transcoder::new(source).serialize()
}

} // verus!
