//! Nodes of a Merkle Search Tree, and how they are read from decoded values.

use crate::cid::{Cid, CidView};
use crate::codec::{dagcbor_decode, decode_value};
use crate::value::{dict_get, dict_lookup, lemma_list_data, list_data, Data, Value};
use vstd::prelude::*;
use vstd::string::*;
use vstd::utf8::encode_utf8;

verus! {

/// What one entry of a node says.
pub struct EntryView {
    /// Number of bytes that the key shares with the key before it.
    pub prefix_len: nat,
    /// The rest of the key.
    pub suffix: Seq<u8>,
    /// The record that the key maps to.
    pub value: CidView,
    /// The subtree between this key and the next one, if any.
    pub right: Option<CidView>,
}

/// What a node says: its left subtree, if any, and its entries in order.
pub struct NodeView {
    pub left: Option<CidView>,
    pub entries: Seq<EntryView>,
}

/// One entry of a tree node.
pub struct IPLDEntry {
    p: u32,
    k: Vec<u8>,
    v: Cid,
    t: Option<Cid>,
}

/// A tree node.
pub struct IPLDNode {
    l: Option<Cid>,
    e: Vec<IPLDEntry>,
}

/// The view of an optional identifier.
pub open spec fn opt_cid_view(cid: Option<Cid>) -> Option<CidView> {
    match cid {
        Some(c) => Some(c@),
        None => None,
    }
}

impl View for IPLDEntry {
    type V = EntryView;

    closed spec fn view(&self) -> EntryView {
        EntryView {
            prefix_len: self.p as nat,
            suffix: self.k@,
            value: self.v@,
            right: opt_cid_view(self.t),
        }
    }
}

/// The views of a node's entries, in their order.
pub open spec fn entry_views(entries: Seq<IPLDEntry>) -> Seq<EntryView> {
    Seq::new(entries.len(), |i: int| entries[i]@)
}

impl View for IPLDNode {
    type V = NodeView;

    closed spec fn view(&self) -> NodeView {
        NodeView { left: opt_cid_view(self.l), entries: entry_views(self.e@) }
    }
}

/// An optional link field: a missing field and a null both stand for "no
/// link". The outer `None` says that the field holds something else.
pub open spec fn optional_link(field: Option<Data>) -> Option<Option<CidView>> {
    match field {
        None => Some(None),
        Some(Data::Null) => Some(None),
        Some(Data::Link(cid)) => Some(Some(cid)),
        Some(_) => None,
    }
}

/// The entry that a decoded value describes: a dictionary with the prefix
/// length `p` (an integer that fits 32 bits), the key suffix `k` (a text),
/// the value `v` (a link) and optionally the right subtree `t`.
pub open spec fn entry_of_data(data: Data) -> Option<EntryView> {
    match data {
        Data::Dict(fields) => match (
            dict_lookup(fields, "p"@),
            dict_lookup(fields, "k"@),
            dict_lookup(fields, "v"@),
            optional_link(dict_lookup(fields, "t"@)),
        ) {
            (Some(Data::Integer(p)), Some(Data::Text(k)), Some(Data::Link(v)), Some(t)) => if 0
                <= p <= u32::MAX {
                Some(EntryView { prefix_len: p as nat, suffix: encode_utf8(k), value: v, right: t })
            } else {
                None
            },
            _ => None,
        },
        _ => None,
    }
}

/// The entries that the items of a list describe; `None` where one of them
/// is no entry.
pub open spec fn entries_of_data(items: Seq<Data>) -> Option<Seq<EntryView>>
    decreases items.len(),
{
    if items.len() == 0 {
        Some(Seq::empty())
    } else {
        match (entries_of_data(items.drop_last()), entry_of_data(items.last())) {
            (Some(front), Some(last)) => Some(front.push(last)),
            _ => None,
        }
    }
}

/// The node that a decoded value describes: a dictionary with the entries
/// `e` (a list) and optionally the left subtree `l`.
pub open spec fn node_of_data(data: Data) -> Option<NodeView> {
    match data {
        Data::Dict(fields) => match (
            optional_link(dict_lookup(fields, "l"@)),
            dict_lookup(fields, "e"@),
        ) {
            (Some(left), Some(Data::List(items))) => match entries_of_data(items) {
                Some(entries) => Some(NodeView { left, entries }),
                None => None,
            },
            _ => None,
        },
        _ => None,
    }
}

/// The node that a block's bytes hold.
pub open spec fn decode_node(bytes: Seq<u8>) -> Option<NodeView> {
    match dagcbor_decode(bytes) {
        Some(data) => node_of_data(data),
        None => None,
    }
}

/// A failure among the first items is a failure of the whole list.
pub proof fn lemma_entries_of_data_prefix(items: Seq<Data>, n: int)
    requires
        0 <= n <= items.len(),
        entries_of_data(items.take(n)) is None,
    ensures
        entries_of_data(items) is None,
    decreases items.len() - n,
{
    if n < items.len() {
        assert(items.take(n + 1).drop_last() =~= items.take(n));
        assert(entries_of_data(items.take(n + 1)) is None);
        lemma_entries_of_data_prefix(items, n + 1);
    } else {
        assert(items.take(n) =~= items);
    }
}

/// Reads an optional link from a field that may be missing.
pub fn read_optional_link(field: Option<&Value>) -> (link: Result<Option<Cid>, ()>)
    ensures
        match optional_link(
            match field {
                Some(v) => Some(v@),
                None => None,
            },
        ) {
            Some(expected) => link matches Ok(got) && opt_cid_view(got) == expected,
            None => link is Err,
        },
{
    match field {
        None => Ok(None),
        Some(Value::Null) => Ok(None),
        Some(Value::Link(cid)) => Ok(Some(cid.clone())),
        Some(_) => Err(()),
    }
}

impl IPLDEntry {
    /// Number of bytes that the key shares with the key before it.
    pub fn prefix_len(&self) -> (p: u32)
        ensures
            p == self@.prefix_len,
    {
        self.p
    }

    /// The rest of the key.
    pub fn suffix(&self) -> (k: &[u8])
        ensures
            k@ == self@.suffix,
    {
        self.k.as_slice()
    }

    /// The record that the key maps to.
    pub fn value(&self) -> (v: &Cid)
        ensures
            v@ == self@.value,
    {
        &self.v
    }

    /// The subtree between this key and the next one, if any.
    pub fn right(&self) -> (t: Option<&Cid>)
        ensures
            match t {
                Some(c) => self@.right == Some(c@),
                None => self@.right is None,
            },
    {
        match &self.t {
            Some(c) => Some(c),
            None => None,
        }
    }

    /// Reads an entry from a decoded value.
    pub fn from_value(value: &Value) -> (entry: Option<IPLDEntry>)
        ensures
            entry is Some <==> entry_of_data(value@) is Some,
            entry matches Some(e) ==> entry_of_data(value@) == Some(e@),
    {
        let fields = match value {
            Value::Dict(fields) => fields,
            _ => { return None; },
        };
        let p: u32 = match dict_get(fields, "p") {
            Some(Value::Integer(n)) => {
                if *n < 0 || *n > 0xffff_ffff {
                    return None;
                }
                *n as u32
            },
            _ => { return None; },
        };
        let k: Vec<u8> = match dict_get(fields, "k") {
            Some(Value::Text(text)) => text.as_str().as_bytes_vec(),
            _ => { return None; },
        };
        let v: Cid = match dict_get(fields, "v") {
            Some(Value::Link(cid)) => cid.clone(),
            _ => { return None; },
        };
        let t: Option<Cid> = match read_optional_link(dict_get(fields, "t")) {
            Ok(t) => t,
            Err(_) => { return None; },
        };
        Some(IPLDEntry { p, k, v, t })
    }
}

impl IPLDNode {
    /// The left subtree, if any.
    pub fn left(&self) -> (l: Option<&Cid>)
        ensures
            match l {
                Some(c) => self@.left == Some(c@),
                None => self@.left is None,
            },
    {
        match &self.l {
            Some(c) => Some(c),
            None => None,
        }
    }

    /// The entries, in their order.
    pub fn entries(&self) -> (e: &Vec<IPLDEntry>)
        ensures
            entry_views(e@) == self@.entries,
    {
        &self.e
    }

    /// Reads a node from a decoded value.
    pub fn from_value(value: &Value) -> (node: Option<IPLDNode>)
        ensures
            node is Some <==> node_of_data(value@) is Some,
            node matches Some(n) ==> node_of_data(value@) == Some(n@),
    {
        let fields = match value {
            Value::Dict(fields) => fields,
            _ => { return None; },
        };
        let l: Option<Cid> = match read_optional_link(dict_get(fields, "l")) {
            Ok(l) => l,
            Err(_) => { return None; },
        };
        let items = match dict_get(fields, "e") {
            Some(Value::List(items)) => items,
            _ => { return None; },
        };
        let mut e: Vec<IPLDEntry> = Vec::new();
        let mut i: usize = 0;
        proof {
            lemma_list_data(items@);
            assert(list_data(items@).take(0) =~= Seq::<Data>::empty());
            assert(entry_views(e@) =~= Seq::<EntryView>::empty());
        }
        while i < items.len()
            invariant
                0 <= i <= items@.len(),
                list_data(items@).len() == items@.len(),
                forall|j: int|
                    0 <= j < items@.len() ==> (#[trigger] list_data(items@)[j]) == items@[j]@,
                entries_of_data(list_data(items@).take(i as int)) == Some(entry_views(e@)),
                node_of_data(value@) == match entries_of_data(list_data(items@)) {
                    Some(entries) => Some(NodeView { left: opt_cid_view(l), entries }),
                    None => None,
                },
            decreases items@.len() - i,
        {
            let ghost views = list_data(items@);
            proof {
                assert(views.take(i + 1).drop_last() =~= views.take(i as int));
                assert(views.take(i + 1).last() == items@[i as int]@);
            }
            match IPLDEntry::from_value(&items[i]) {
                Some(entry) => {
                    let ghost before = e@;
                    e.push(entry);
                    proof {
                        assert(entry_views(e@) =~= entry_views(before).push(entry@));
                    }
                },
                None => {
                    proof {
                        assert(entries_of_data(views.take(i + 1)) is None);
                        lemma_entries_of_data_prefix(views, i + 1);
                    }
                    return None;
                },
            }
            i = i + 1;
        }
        assert(list_data(items@).take(i as int) =~= list_data(items@));
        Some(IPLDNode { l, e })
    }

    /// Decodes a node from the bytes of a block.
    pub fn decode(bytes: &[u8]) -> (node: Option<IPLDNode>)
        ensures
            node is Some <==> decode_node(bytes@) is Some,
            node matches Some(n) ==> decode_node(bytes@) == Some(n@),
    {
        match decode_value(bytes) {
            Ok(value) => IPLDNode::from_value(&value),
            Err(_) => None,
        }
    }
}

} // verus!
