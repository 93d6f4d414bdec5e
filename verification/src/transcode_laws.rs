//! What the transcoder gives for every written form of a canonical value.

use crate::cid::cid_of_text;
use crate::codec::dagcbor_encode;
use crate::digest::sha256;
use crate::transcode::{
    is_link_placeholder, resolve_entries, resolve_items, resolve_links, transcode_bytes,
    TranscodeError,
};
use crate::value::Data;
use vstd::prelude::*;

verus! {

/// Whether no dictionary of the value has the shape of a link placeholder.
/// Such a value can be written with placeholders and read back without
/// doubt.
pub open spec fn no_placeholder(data: Data) -> bool
    decreases data,
{
    match data {
        Data::List(items) => forall|i: int|
            0 <= i < items.len() ==> no_placeholder(#[trigger] items[i]),
        Data::Dict(entries) => !is_link_placeholder(entries) && forall|i: int|
            0 <= i < entries.len() ==> no_placeholder((#[trigger] entries[i]).1),
        _ => true,
    }
}

/// Whether `written` is a link placeholder that holds a text of `cid`.
pub open spec fn is_placeholder_for(written: Data, cid: crate::cid::CidView) -> bool {
    match written {
        Data::Dict(entries) => is_link_placeholder(entries) && match entries[0].1 {
            Data::Text(text) => cid_of_text(text) == Some(cid),
            _ => false,
        },
        _ => false,
    }
}

/// Whether `written` is a decoded form of `value`: the same value, in which
/// any link may be written as a placeholder that holds a text of its
/// identifier.
pub open spec fn written_as(written: Data, value: Data) -> bool
    decreases value,
{
    match value {
        Data::Link(cid) => written == value || is_placeholder_for(written, cid),
        Data::List(items) => written matches Data::List(forms) && forms.len() == items.len()
            && forall|i: int| 0 <= i < items.len() ==> written_as(forms[i], #[trigger] items[i]),
        Data::Dict(entries) => written matches Data::Dict(forms) && forms.len() == entries.len()
            && forall|i: int|
            0 <= i < entries.len() ==> forms[i].0 == (#[trigger] entries[i]).0 && written_as(
                forms[i].1,
                entries[i].1,
            ),
        _ => written == value,
    }
}

/// Resolving the links of a written form gives back the value.
pub proof fn lemma_resolve_written(written: Data, value: Data)
    requires
        written_as(written, value),
        no_placeholder(value),
    ensures
        resolve_links(written) == Some(value),
    decreases value, 0nat,
{
    match value {
        Data::List(items) => {
            let forms = written->List_0;
            lemma_resolve_items_written(forms, items, items.len() as int);
            assert(forms.take(items.len() as int) =~= forms);
            assert(items.take(items.len() as int) =~= items);
        },
        Data::Dict(entries) => {
            let forms = written->Dict_0;
            if entries.len() == 1 {
                assert(forms[0].0 == entries[0].0);
            }
            lemma_resolve_entries_written(forms, entries, entries.len() as int);
            assert(forms.take(entries.len() as int) =~= forms);
            assert(entries.take(entries.len() as int) =~= entries);
        },
        _ => {},
    }
}

/// Resolving the links of the first `n` written items gives back the first
/// `n` items.
pub proof fn lemma_resolve_items_written(forms: Seq<Data>, items: Seq<Data>, n: int)
    requires
        0 <= n <= items.len(),
        forms.len() == items.len(),
        forall|i: int|
            0 <= i < items.len() ==> written_as(forms[i], #[trigger] items[i]) && no_placeholder(
                items[i],
            ),
    ensures
        resolve_items(forms.take(n)) == Some(items.take(n)),
    decreases items, n,
{
    if n == 0 {
        assert(forms.take(0) =~= Seq::<Data>::empty());
        assert(items.take(0) =~= Seq::<Data>::empty());
    } else {
        lemma_resolve_items_written(forms, items, n - 1);
        assert(written_as(forms[n - 1], items[n - 1]));
        lemma_resolve_written(forms[n - 1], items[n - 1]);
        assert(forms.take(n).drop_last() =~= forms.take(n - 1));
        assert(forms.take(n).last() == forms[n - 1]);
        assert(items.take(n) =~= items.take(n - 1).push(items[n - 1]));
    }
}

/// Resolving the links of the first `n` written entries gives back the
/// first `n` entries.
pub proof fn lemma_resolve_entries_written(
    forms: Seq<(Seq<char>, Data)>,
    entries: Seq<(Seq<char>, Data)>,
    n: int,
)
    requires
        0 <= n <= entries.len(),
        forms.len() == entries.len(),
        forall|i: int|
            0 <= i < entries.len() ==> forms[i].0 == (#[trigger] entries[i]).0 && written_as(
                forms[i].1,
                entries[i].1,
            ) && no_placeholder(entries[i].1),
    ensures
        resolve_entries(forms.take(n)) == Some(entries.take(n)),
    decreases entries, n,
{
    if n == 0 {
        assert(forms.take(0) =~= Seq::<(Seq<char>, Data)>::empty());
        assert(entries.take(0) =~= Seq::<(Seq<char>, Data)>::empty());
    } else {
        lemma_resolve_entries_written(forms, entries, n - 1);
        assert(forms[n - 1].0 == entries[n - 1].0);
        lemma_resolve_written(forms[n - 1].1, entries[n - 1].1);
        assert(forms.take(n).drop_last() =~= forms.take(n - 1));
        assert(forms.take(n).last() == forms[n - 1]);
        assert(entries.take(n) =~= entries.take(n - 1).push(entries[n - 1]));
    }
}

/// Transcoding any written form of a canonical value gives exactly the
/// bytes that the canonical encoder gives for the value itself, and hence
/// the same digest and the same identifier.
pub proof fn law_transcode_matches_encoder(written: Data, value: Data)
    requires
        written_as(written, value),
        no_placeholder(value),
    ensures
        transcode_bytes(written) == match dagcbor_encode(value) {
            Some(bytes) => Ok::<Seq<u8>, TranscodeError>(bytes),
            None => Err(TranscodeError::NotEncodable),
        },
        transcode_bytes(written) matches Ok(bytes) ==> sha256(bytes) == sha256(
            dagcbor_encode(value)->Some_0,
        ),
{
    lemma_resolve_written(written, value);
}

/// A value without placeholders is a written form of itself: the
/// transcoder leaves it as it is.
pub proof fn law_canonical_value_is_unchanged(value: Data)
    requires
        no_placeholder(value),
    ensures
        resolve_links(value) == Some(value),
    decreases value,
{
    lemma_written_as_itself(value);
    lemma_resolve_written(value, value);
}

/// Every value is a written form of itself.
pub proof fn lemma_written_as_itself(value: Data)
    ensures
        written_as(value, value),
    decreases value,
{
    match value {
        Data::List(items) => {
            assert forall|i: int| 0 <= i < items.len() implies written_as(
                items[i],
                #[trigger] items[i],
            ) by {
                lemma_written_as_itself(items[i]);
            }
        },
        Data::Dict(entries) => {
            assert forall|i: int| 0 <= i < entries.len() implies written_as(
                entries[i].1,
                (#[trigger] entries[i]).1,
            ) by {
                lemma_written_as_itself(entries[i].1);
            }
        },
        _ => {},
    }
}

} // verus!
