//! The canonical value model: a tagged union over everything that a decoded
//! record, tree node or commit can hold.

use crate::cid::{Cid, CidView};
use ipld_core::ipld::Ipld;
use vstd::prelude::*;
use vstd::string::*;

verus! {

/// The codec's own value type. The library carries such values through and
/// never looks inside one.
#[verifier::external_type_specification]
#[verifier::external_body]
pub struct ExIpld(Ipld);

/// What a [`Value`] holds, as mathematical data.
pub enum Data {
    Null,
    Bool(bool),
    Integer(int),
    /// A floating-point number, kept as the codec's own value.
    Float(Ipld),
    Text(Seq<char>),
    Bytes(Seq<u8>),
    Link(CidView),
    List(Seq<Data>),
    /// Entries in the order in which they were met.
    Dict(Seq<(Seq<char>, Data)>),
}

/// `Clone::clone` of the codec's value gives an equal value.
pub assume_specification[ <Ipld as Clone>::clone ](value: &Ipld) -> (copy: Ipld)
    ensures
        copy == *value,
;

/// What a codec value holds, read as data: the same scalar, the link with
/// the same parts, the items of a list in their order, the entries of a
/// dictionary in the order of the codec's sorted map. A float is read as
/// the codec value itself.
pub uninterp spec fn data_of(tree: Ipld) -> Data;

/// A floating-point number, kept as the codec's own value. The library
/// carries it through and never computes with it.
#[derive(Debug, PartialEq, Eq)]
pub struct Float {
    pub(crate) tree: Ipld,
}

impl View for Float {
    type V = Ipld;

    closed spec fn view(&self) -> Ipld {
        self.tree
    }
}

/// Tells `Ipld::Float` from the other variants and keeps a float as it is.
#[verifier::external_body]
fn float_of_tree(tree: Ipld) -> (float: Option<Float>)
    ensures
        float is Some <==> data_of(tree) is Float,
        float matches Some(f) ==> f@ == tree,
{
    match tree {
        Ipld::Float(_) => Some(Float { tree }),
        _ => None,
    }
}

impl Float {
    /// Takes a codec value that is a float; `None` for any other.
    pub fn new(tree: Ipld) -> (float: Option<Float>)
        ensures
            float is Some <==> data_of(tree) is Float,
            float matches Some(f) ==> f@ == tree,
    {
        float_of_tree(tree)
    }

    /// The float as a codec value.
    pub fn to_codec(&self) -> (tree: Ipld)
        ensures
            tree == self@,
    {
        self.tree.clone()
    }
}

impl Clone for Float {
    fn clone(&self) -> (copy: Float)
        ensures
            copy@ == self@,
    {
        Float { tree: self.tree.clone() }
    }
}

/// A decoded value.
#[derive(Debug, PartialEq, Eq)]
pub enum Value {
    Null,
    Bool(bool),
    /// An integer of any width.
    Integer(i128),
    /// A floating-point number.
    Float(Float),
    Text(String),
    Bytes(Vec<u8>),
    Link(Cid),
    List(Vec<Value>),
    /// Entries in the order in which they were met.
    Dict(Vec<(String, Value)>),
}

impl View for Value {
    type V = Data;

    open spec fn view(&self) -> Data
        decreases self,
    {
        match self {
            Value::Null => Data::Null,
            Value::Bool(b) => Data::Bool(*b),
            Value::Integer(i) => Data::Integer(*i as int),
            Value::Float(f) => Data::Float(f@),
            Value::Text(s) => Data::Text(s@),
            Value::Bytes(b) => Data::Bytes(b@),
            Value::Link(c) => Data::Link(c@),
            Value::List(items) => Data::List(list_data(items@)),
            Value::Dict(entries) => Data::Dict(dict_data(entries@)),
        }
    }
}

/// The views of the items of a list, in their order.
pub open spec fn list_data(items: Seq<Value>) -> Seq<Data>
    decreases items,
{
    if items.len() == 0 {
        Seq::empty()
    } else {
        list_data(items.drop_last()).push(items.last()@)
    }
}

/// The views of the entries of a dictionary, in their order.
pub open spec fn dict_data(entries: Seq<(String, Value)>) -> Seq<(Seq<char>, Data)>
    decreases entries,
{
    if entries.len() == 0 {
        Seq::empty()
    } else {
        dict_data(entries.drop_last()).push((entries.last().0@, entries.last().1@))
    }
}

/// The view of a list holds the view of each item at the item's place.
pub proof fn lemma_list_data(items: Seq<Value>)
    ensures
        list_data(items).len() == items.len(),
        forall|i: int| 0 <= i < items.len() ==> (#[trigger] list_data(items)[i]) == items[i]@,
    decreases items.len(),
{
    if items.len() > 0 {
        lemma_list_data(items.drop_last());
        assert(list_data(items) == list_data(items.drop_last()).push(items.last()@));
    } else {
        assert(list_data(items) == Seq::<Data>::empty());
    }
}

/// The view of a dictionary holds the view of each entry at the entry's
/// place.
pub proof fn lemma_dict_data(entries: Seq<(String, Value)>)
    ensures
        dict_data(entries).len() == entries.len(),
        forall|i: int|
            0 <= i < entries.len() ==> (#[trigger] dict_data(entries)[i]) == (
                entries[i].0@,
                entries[i].1@,
            ),
    decreases entries.len(),
{
    if entries.len() > 0 {
        lemma_dict_data(entries.drop_last());
        assert(dict_data(entries) == dict_data(entries.drop_last()).push(
            (entries.last().0@, entries.last().1@),
        ));
    } else {
        assert(dict_data(entries) == Seq::<(Seq<char>, Data)>::empty());
    }
}

/// The value of the first entry with the given key, looking from index
/// `from` on.
pub open spec fn dict_lookup_from(entries: Seq<(Seq<char>, Data)>, key: Seq<char>, from: int)
    -> Option<Data>
    decreases entries.len() - from,
{
    if from < 0 || from >= entries.len() {
        None
    } else if entries[from].0 == key {
        Some(entries[from].1)
    } else {
        dict_lookup_from(entries, key, from + 1)
    }
}

/// The value of the first entry with the given key; `None` where no entry
/// has it.
pub open spec fn dict_lookup(entries: Seq<(Seq<char>, Data)>, key: Seq<char>) -> Option<Data> {
    dict_lookup_from(entries, key, 0)
}

/// Finds the value of the first entry of a dictionary with the given key.
pub fn dict_get<'a>(entries: &'a Vec<(String, Value)>, key: &str) -> (found: Option<&'a Value>)
    ensures
        found is Some <==> dict_lookup(dict_data(entries@), key@) is Some,
        found matches Some(v) ==> dict_lookup(dict_data(entries@), key@) == Some(v@),
{
    let wanted = String::from_str(key);
    let mut i: usize = 0;
    proof {
        lemma_dict_data(entries@);
    }
    while i < entries.len()
        invariant
            0 <= i <= entries@.len(),
            wanted@ == key@,
            dict_data(entries@).len() == entries@.len(),
            forall|j: int|
                0 <= j < entries@.len() ==> (#[trigger] dict_data(entries@)[j]) == (
                    entries@[j].0@,
                    entries@[j].1@,
                ),
            dict_lookup(dict_data(entries@), key@) == dict_lookup_from(
                dict_data(entries@),
                key@,
                i as int,
            ),
        decreases entries@.len() - i,
    {
        if entries[i].0 == wanted {
            return Some(&entries[i].1);
        }
        i = i + 1;
    }
    None
}

impl Clone for Value {
    fn clone(&self) -> (copy: Value)
        ensures
            copy@ == self@,
        decreases self,
    {
        match self {
            Value::Null => Value::Null,
            Value::Bool(b) => Value::Bool(*b),
            Value::Integer(i) => Value::Integer(*i),
            Value::Float(f) => Value::Float(f.clone()),
            Value::Text(s) => Value::Text(s.clone()),
            Value::Bytes(b) => Value::Bytes(b.clone()),
            Value::Link(c) => Value::Link(c.clone()),
            Value::List(items) => {
                let mut out: Vec<Value> = Vec::new();
                let mut i: usize = 0;
                while i < items.len()
                    invariant
                        decreases_to!(self => *items),
                        0 <= i <= items@.len(),
                        out@.len() == i,
                        forall|j: int| 0 <= j < i ==> out@[j]@ == items@[j]@,
                        self == Value::List(*items),
                    decreases items@.len() - i,
                {
                    assert(decreases_to!(*items => items[i as int]));
                    let item = items[i].clone();
                    out.push(item);
                    i = i + 1;
                }
                proof {
                    lemma_list_data(out@);
                    lemma_list_data(items@);
                }
                let copy = Value::List(out);
                assert(copy@->List_0 =~= self@->List_0);
                copy
            },
            Value::Dict(entries) => {
                let mut out: Vec<(String, Value)> = Vec::new();
                let mut i: usize = 0;
                while i < entries.len()
                    invariant
                        decreases_to!(self => *entries),
                        0 <= i <= entries@.len(),
                        out@.len() == i,
                        forall|j: int|
                            0 <= j < i ==> out@[j].0@ == entries@[j].0@ && out@[j].1@
                                == entries@[j].1@,
                        self == Value::Dict(*entries),
                    decreases entries@.len() - i,
                {
                    assert(decreases_to!(*entries => entries[i as int]));
                    let key = entries[i].0.clone();
                    let item = entries[i].1.clone();
                    out.push((key, item));
                    i = i + 1;
                }
                proof {
                    lemma_dict_data(out@);
                    lemma_dict_data(entries@);
                }
                let copy = Value::Dict(out);
                assert(copy@->Dict_0 =~= self@->Dict_0);
                copy
            },
        }
    }
}

} // verus!
