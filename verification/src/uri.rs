//! Record addresses of the form `at://<authority>/<collection>/<record-key>`.

use crate::text::{find_char, has_prefix, index_of_char, lemma_find_char, starts_with};
use vstd::prelude::*;
use vstd::string::*;

verus! {

/// The three segments of a record address.
pub struct UriView {
    pub authority: Seq<char>,
    pub collection: Seq<char>,
    pub rkey: Seq<char>,
}

/// A record address, split into its three segments.
#[derive(Debug, PartialEq, Eq)]
pub struct RecordUri {
    pub authority: String,
    pub collection: String,
    pub rkey: String,
}

impl View for RecordUri {
    type V = UriView;

    open spec fn view(&self) -> UriView {
        UriView { authority: self.authority@, collection: self.collection@, rkey: self.rkey@ }
    }
}

/// The text of an address with the given segments.
pub open spec fn uri_text(parts: UriView) -> Seq<char> {
    "at://"@ + parts.authority + seq!['/'] + parts.collection + seq!['/'] + parts.rkey
}

/// The segments of an address: the text must start with `at://`, and what
/// follows must hold exactly two slashes, which part the three segments. A
/// segment may be empty.
pub open spec fn parse_uri(uri: Seq<char>) -> Option<UriView> {
    if !starts_with(uri, "at://"@) {
        None
    } else {
        let first = find_char(uri, '/', 5);
        let second = find_char(uri, '/', first + 1);
        let third = find_char(uri, '/', second + 1);
        if first < uri.len() && second < uri.len() && third >= uri.len() {
            Some(
                UriView {
                    authority: uri.subrange(5, first),
                    collection: uri.subrange(first + 1, second),
                    rkey: uri.subrange(second + 1, uri.len() as int),
                },
            )
        } else {
            None
        }
    }
}

impl RecordUri {
    /// Splits a record address into its segments.
    pub fn parse(uri: &str) -> (parts: Option<RecordUri>)
        ensures
            parts is Some <==> parse_uri(uri@) is Some,
            parts matches Some(p) ==> parse_uri(uri@) == Some(p@),
    {
        proof {
            reveal_strlit("at://");
        }
        if !has_prefix(uri, "at://") {
            return None;
        }
        let n = uri.unicode_len();
        let first = index_of_char(uri, '/', 5);
        if first >= n {
            return None;
        }
        let second = index_of_char(uri, '/', first + 1);
        if second >= n {
            return None;
        }
        let third = index_of_char(uri, '/', second + 1);
        if third < n {
            return None;
        }
        Some(
            RecordUri {
                authority: String::from_str(uri.substring_char(5, first)),
                collection: String::from_str(uri.substring_char(first + 1, second)),
                rkey: String::from_str(uri.substring_char(second + 1, n)),
            },
        )
    }
}

/// An address that parses is the text of its segments, and no segment holds
/// a slash.
pub proof fn lemma_parse_uri_sound(uri: Seq<char>)
    requires
        parse_uri(uri) is Some,
    ensures
        uri == uri_text(parse_uri(uri)->Some_0),
        !parse_uri(uri)->Some_0.authority.contains('/'),
        !parse_uri(uri)->Some_0.collection.contains('/'),
        !parse_uri(uri)->Some_0.rkey.contains('/'),
{
    reveal_strlit("at://");
    let first = find_char(uri, '/', 5);
    lemma_find_char(uri, '/', 5);
    let second = find_char(uri, '/', first + 1);
    lemma_find_char(uri, '/', first + 1);
    lemma_find_char(uri, '/', second + 1);
    let parts = parse_uri(uri)->Some_0;
    assert(uri =~= uri_text(parts));
}

} // verus!
