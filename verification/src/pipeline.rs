//! The verification pipeline: from a record and its claimed identifier to
//! the proof that a signed repository holds it.

use crate::cid::{cid_of_text, parse_cid, verify_content_hash, Cid, CidView, HashError};
use crate::commit::{
    commit_signature_outcome, decode_commit, verify_commit_signature, CommitError,
    SignedCommitObject,
};
use crate::did::{
    did_document_location, did_document_url, DidDocument, DidDocumentView, DidError,
};
use crate::digest::sha256;
use crate::mst::{dfs, walk, MstError};
use crate::store::{BlockStore, VisitedSet};
use crate::text::str_eq;
use crate::transcode::{transcode, transcode_bytes, TranscodeError};
use crate::uri::{parse_uri, RecordUri, UriView};
use crate::value::{Data, Value};
use libipld::multibase::Error as MultibaseError;
use vstd::prelude::*;
use vstd::string::*;

verus! {

/// The error of the multibase decoder. Nothing is read from it.
#[verifier::external_type_specification]
#[verifier::external_body]
pub struct ExMultibaseError(MultibaseError);

/// Why a record was not authenticated.
#[derive(Clone, Copy, Debug, PartialEq, Eq, Structural)]
pub enum VerifyError {
    /// The claimed identifier is not the text of an identifier.
    MalformedCid,
    /// An identifier, of the record or of a block, does not carry a 32-byte
    /// SHA-256 digest.
    UnsupportedCid,
    /// The record could not be brought into canonical form.
    Transcode(TranscodeError),
    /// The record's canonical bytes do not hash to the claimed identifier.
    RecordHashMismatch,
    /// The address is not `at://` followed by three segments.
    InvalidUri,
    /// The address names another identity than the DID document.
    DidMismatch,
    /// The DID document lacks the data server or the signing key.
    Did(DidError),
    /// A block of the archive does not hash to its identifier.
    BlockHashMismatch,
    /// The signing key is not multibase text.
    MalformedSigningKey,
    /// The archive does not hold the block of a root that it declares.
    MissingRoot,
    /// The block of a root does not decode to a signed commit.
    MalformedCommit,
    /// A commit belongs to another identity than the address names.
    CommitDidMismatch,
    /// A commit's signature was not accepted.
    Commit(CommitError),
    /// The tree under a commit breaks a structural rule.
    Tree(MstError),
    /// No signed root reaches the record.
    NotFound,
}

/// What the first stage establishes: the record's identifier, the segments
/// of its address and the data server to ask for the archive.
pub struct ClaimView {
    pub target: CidView,
    pub uri: UriView,
    pub pds: Seq<char>,
}

/// A record whose bytes hash to its claimed identifier and whose address
/// names the identity of the DID document.
pub struct RecordClaim {
    pub target: Cid,
    pub uri: RecordUri,
    pub pds: String,
}

impl View for RecordClaim {
    type V = ClaimView;

    open spec fn view(&self) -> ClaimView {
        ClaimView { target: self.target@, uri: self.uri@, pds: self.pds@ }
    }
}

/// The address from which the archive for a claim is fetched: the data
/// server's endpoint, the path of the record query, and the three segments
/// of the record's address as its parameters.
pub open spec fn archive_location(claim: ClaimView) -> Seq<char> {
    claim.pds + "/xrpc/com.atproto.sync.getRecord?did="@ + claim.uri.authority + "&collection="@
        + claim.uri.collection + "&rkey="@ + claim.uri.rkey
}

impl RecordClaim {
    /// The address from which the archive that proves the claim is fetched.
    pub fn archive_url(&self) -> (url: String)
        ensures
            url@ == archive_location(self@),
    {
        let mut url = self.pds.clone();
        url.append("/xrpc/com.atproto.sync.getRecord?did=");
        url.append(self.uri.authority.as_str());
        url.append("&collection=");
        url.append(self.uri.collection.as_str());
        url.append("&rkey=");
        url.append(self.uri.rkey.as_str());
        url
    }
}

/// Where the DID document for a record address is published: the address
/// must have three segments, and the first must be a DID of a supported
/// method.
pub open spec fn document_location(uri: Seq<char>) -> Result<Seq<char>, VerifyError> {
    match parse_uri(uri) {
        None => Err(VerifyError::InvalidUri),
        Some(parts) => match did_document_location(parts.authority) {
            Ok(url) => Ok(url),
            Err(e) => Err(VerifyError::Did(e)),
        },
    }
}

/// The address from which the DID document of a record's identity is
/// fetched.
pub fn did_document_request(uri: &str) -> (url: Result<String, VerifyError>)
    ensures
        match document_location(uri@) {
            Ok(expected) => url matches Ok(got) && got@ == expected,
            Err(e) => url matches Err(got) && got == e,
        },
{
    let parts = match RecordUri::parse(uri) {
        Some(parts) => parts,
        None => {
            return Err(VerifyError::InvalidUri);
        },
    };
    match did_document_url(parts.authority.as_str()) {
        Ok(url) => Ok(url),
        Err(e) => Err(VerifyError::Did(e)),
    }
}

/// What an archive holds.
pub struct ArchiveView {
    pub roots: Seq<CidView>,
    pub blocks: Seq<(CidView, Seq<u8>)>,
}

/// A repository archive: the roots that its header declares, and its blocks
/// in the order in which they were read.
pub struct Archive {
    pub roots: Vec<Cid>,
    pub blocks: Vec<(Cid, Vec<u8>)>,
}

/// The views of a list of identifiers.
pub open spec fn cid_views(cids: Seq<Cid>) -> Seq<CidView> {
    Seq::new(cids.len(), |i: int| cids[i]@)
}

/// The views of a list of blocks.
pub open spec fn block_views(blocks: Seq<(Cid, Vec<u8>)>) -> Seq<(CidView, Seq<u8>)> {
    Seq::new(blocks.len(), |i: int| (blocks[i].0@, blocks[i].1@))
}

impl View for Archive {
    type V = ArchiveView;

    open spec fn view(&self) -> ArchiveView {
        ArchiveView { roots: cid_views(self.roots@), blocks: block_views(self.blocks@) }
    }
}

/// The outcome of the first stage. The identifier must parse and carry a
/// SHA-256 digest, the record's canonical bytes must hash to it, the address
/// must have three segments with the document's identity as the first, and
/// the document must name a data server.
pub open spec fn record_outcome(
    uri: Seq<char>,
    cid: Seq<char>,
    record: Data,
    doc: DidDocumentView,
) -> Result<ClaimView, VerifyError> {
    match cid_of_text(cid) {
        None => Err(VerifyError::MalformedCid),
        Some(target) => if !target.is_sha256() {
            Err(VerifyError::UnsupportedCid)
        } else {
            match transcode_bytes(record) {
                Err(e) => Err(VerifyError::Transcode(e)),
                Ok(bytes) => if target.digest != sha256(bytes) {
                    Err(VerifyError::RecordHashMismatch)
                } else {
                    match parse_uri(uri) {
                        None => Err(VerifyError::InvalidUri),
                        Some(parts) => if parts.authority != doc.id {
                            Err(VerifyError::DidMismatch)
                        } else {
                            match doc.pds() {
                                Err(e) => Err(VerifyError::Did(e)),
                                Ok(pds) => Ok(ClaimView { target, uri: parts, pds }),
                            }
                        },
                    }
                },
            }
        },
    }
}

/// The store that the blocks of an archive fill: every block must hash to
/// its identifier, and the first one that does not decides the error.
pub open spec fn load_blocks(blocks: Seq<(CidView, Seq<u8>)>) -> Result<
    Map<CidView, Seq<u8>>,
    VerifyError,
>
    decreases blocks.len(),
{
    if blocks.len() == 0 {
        Ok(Map::empty())
    } else {
        match load_blocks(blocks.drop_last()) {
            Err(e) => Err(e),
            Ok(store) => {
                let (cid, bytes) = blocks.last();
                if !cid.is_sha256() {
                    Err(VerifyError::UnsupportedCid)
                } else if cid.digest != sha256(bytes) {
                    Err(VerifyError::BlockHashMismatch)
                } else {
                    Ok(store.insert(cid, bytes))
                }
            },
        }
    }
}

/// The check of the declared roots from index `i` on: each root's block
/// must be stored and decode to a commit of the identity `authority`, its
/// signature must verify with `key`, and the walk from its data root must
/// find no violation. The result says whether any walk found the target.
pub open spec fn check_roots(
    store: Map<CidView, Seq<u8>>,
    roots: Seq<CidView>,
    i: nat,
    visited: Set<CidView>,
    found: bool,
    key: Seq<u8>,
    authority: Seq<char>,
    target: CidView,
) -> Result<bool, VerifyError>
    decreases roots.len() - i,
{
    if i >= roots.len() {
        Ok(found)
    } else if !store.contains_key(roots[i as int]) {
        Err(VerifyError::MissingRoot)
    } else {
        match decode_commit(store[roots[i as int]]) {
            None => Err(VerifyError::MalformedCommit),
            Some(commit) => if commit.did != authority {
                Err(VerifyError::CommitDidMismatch)
            } else {
                match commit_signature_outcome(commit, key) {
                    Err(e) => Err(VerifyError::Commit(e)),
                    Ok(()) => match walk(store, visited, Some(commit.data), target) {
                        Err(e) => Err(VerifyError::Tree(e)),
                        Ok((report, seen)) => check_roots(
                            store,
                            roots,
                            i + 1,
                            seen,
                            found || report.found,
                            key,
                            authority,
                            target,
                        ),
                    },
                }
            },
        }
    }
}

/// The bytes that multibase text stands for, as `multibase::decode` gives
/// them; `None` where it reports an error.
pub uninterp spec fn multibase_payload(text: Seq<char>) -> Option<Seq<u8>>;

/// Calls `multibase::decode` and keeps the decoded bytes. The outcome
/// depends on the text alone.
#[verifier::external_body]
fn multibase_decode(text: &str) -> (bytes: Result<Vec<u8>, MultibaseError>)
    ensures
        bytes is Ok <==> multibase_payload(text@) is Some,
        bytes matches Ok(b) ==> multibase_payload(text@) == Some(b@),
{
    libipld::multibase::decode(text).map(|decoded| decoded.1)
}

/// The outcome of the second stage: the archive's blocks are checked and
/// stored, the signing key is read from the document, and every declared
/// root is checked; at least one of them must reach the target.
pub open spec fn archive_outcome(
    target: CidView,
    authority: Seq<char>,
    doc: DidDocumentView,
    archive: ArchiveView,
) -> Result<(), VerifyError> {
    match load_blocks(archive.blocks) {
        Err(e) => Err(e),
        Ok(store) => match doc.signing_key() {
            Err(e) => Err(VerifyError::Did(e)),
            Ok(text) => match multibase_payload(text) {
                None => Err(VerifyError::MalformedSigningKey),
                Some(key) => match check_roots(
                    store,
                    archive.roots,
                    0,
                    Set::empty(),
                    false,
                    key,
                    authority,
                    target,
                ) {
                    Err(e) => Err(e),
                    Ok(found) => if found {
                        Ok(())
                    } else {
                        Err(VerifyError::NotFound)
                    },
                },
            },
        },
    }
}

/// The outcome of the whole pipeline.
pub open spec fn authentication_outcome(
    uri: Seq<char>,
    cid: Seq<char>,
    record: Data,
    doc: DidDocumentView,
    archive: ArchiveView,
) -> Result<(), VerifyError> {
    match record_outcome(uri, cid, record, doc) {
        Err(e) => Err(e),
        Ok(claim) => archive_outcome(claim.target, claim.uri.authority, doc, archive),
    }
}

/// The first stage: checks the record against its claimed identifier and
/// its address against the DID document. Nothing is fetched before this
/// has succeeded.
pub fn check_record(uri: &str, cid: &str, record: Value, did_doc: &DidDocument) -> (claim: Result<
    RecordClaim,
    VerifyError,
>)
    ensures
        match record_outcome(uri@, cid@, record@, did_doc@) {
            Ok(expected) => claim matches Ok(got) && got@ == expected,
            Err(e) => claim matches Err(got) && got == e,
        },
{
    let target = match parse_cid(cid) {
        Some(target) => target,
        None => {
            return Err(VerifyError::MalformedCid);
        },
    };
    if !target.is_sha256() {
        return Err(VerifyError::UnsupportedCid);
    }
    let bytes = match transcode(record) {
        Ok(bytes) => bytes,
        Err(e) => {
            return Err(VerifyError::Transcode(e));
        },
    };
    match verify_content_hash(bytes.as_slice(), &target) {
        Ok(()) => {},
        Err(_) => {
            return Err(VerifyError::RecordHashMismatch);
        },
    }
    let parts = match RecordUri::parse(uri) {
        Some(parts) => parts,
        None => {
            return Err(VerifyError::InvalidUri);
        },
    };
    if !(parts.authority == did_doc.id) {
        return Err(VerifyError::DidMismatch);
    }
    let pds = match did_doc.get_pds() {
        Ok(pds) => String::from_str(pds),
        Err(e) => {
            return Err(VerifyError::Did(e));
        },
    };
    Ok(RecordClaim { target, uri: parts, pds })
}

/// Checks every block of an archive against its identifier and fills a
/// store with them.
pub fn load_store(blocks: Vec<(Cid, Vec<u8>)>) -> (store: Result<BlockStore, VerifyError>)
    ensures
        match load_blocks(block_views(blocks@)) {
            Ok(expected) => store matches Ok(got) && got@ == expected && got@.dom().finite(),
            Err(e) => store matches Err(got) && got == e,
        },
{
    let mut store = BlockStore::new();
    let mut i: usize = 0;
    let ghost views = block_views(blocks@);
    assert(views.take(0) =~= Seq::<(CidView, Seq<u8>)>::empty());
    while i < blocks.len()
        invariant
            0 <= i <= blocks@.len(),
            views == block_views(blocks@),
            store@.dom().finite(),
            load_blocks(views.take(i as int)) == Ok::<Map<CidView, Seq<u8>>, VerifyError>(store@),
        decreases blocks@.len() - i,
    {
        proof {
            assert(views.take(i + 1).drop_last() =~= views.take(i as int));
            assert(views.take(i + 1).last() == (blocks@[i as int].0@, blocks@[i as int].1@));
        }
        let cid = blocks[i].0.clone();
        let bytes = blocks[i].1.clone();
        match store.insert(cid, bytes) {
            Ok(()) => {},
            Err(e) => {
                proof {
                    lemma_load_blocks_prefix(views, i + 1);
                }
                match e {
                    HashError::UnsupportedCid => {
                        return Err(VerifyError::UnsupportedCid);
                    },
                    HashError::Mismatch => {
                        return Err(VerifyError::BlockHashMismatch);
                    },
                }
            },
        }
        i = i + 1;
    }
    assert(views.take(i as int) =~= views);
    Ok(store)
}

/// The error of the first blocks is the error of all blocks.
pub proof fn lemma_load_blocks_prefix(blocks: Seq<(CidView, Seq<u8>)>, n: int)
    requires
        0 <= n <= blocks.len(),
        load_blocks(blocks.take(n)) is Err,
    ensures
        load_blocks(blocks) == load_blocks(blocks.take(n)),
    decreases blocks.len() - n,
{
    if n < blocks.len() {
        assert(blocks.take(n + 1).drop_last() =~= blocks.take(n));
        assert(load_blocks(blocks.take(n + 1)) == load_blocks(blocks.take(n)));
        lemma_load_blocks_prefix(blocks, n + 1);
    } else {
        assert(blocks.take(n) =~= blocks);
    }
}

/// The second stage: checks the archive's blocks, then every declared root:
/// its commit, the commit's signature and the tree under it.
pub fn verify_archive(target: &Cid, authority: &str, did_doc: &DidDocument, archive: Archive) -> (
    outcome: Result<(), VerifyError>)
    ensures
        outcome == archive_outcome(target@, authority@, did_doc@, archive@),
{
    let ghost expected = archive_outcome(target@, authority@, did_doc@, archive@);
    let Archive { roots, blocks } = archive;
    let store = match load_store(blocks) {
        Ok(store) => store,
        Err(e) => {
            return Err(e);
        },
    };
    let key_text = match did_doc.get_signing_key() {
        Ok(text) => text,
        Err(e) => {
            return Err(VerifyError::Did(e));
        },
    };
    let key = match multibase_decode(key_text) {
        Ok(key) => key,
        Err(_) => {
            return Err(VerifyError::MalformedSigningKey);
        },
    };
    let mut visited = VisitedSet::new();
    let mut found = false;
    let mut i: usize = 0;
    let ghost total = check_roots(
        store@,
        cid_views(roots@),
        0,
        Set::empty(),
        false,
        key@,
        authority@,
        target@,
    );
    while i < roots.len()
        invariant
            0 <= i <= roots@.len(),
            expected == archive_outcome(target@, authority@, did_doc@, archive@),
            expected == match total {
                Err(e) => Err::<(), VerifyError>(e),
                Ok(found) => if found {
                    Ok(())
                } else {
                    Err(VerifyError::NotFound)
                },
            },
            total == check_roots(
                store@,
                cid_views(roots@),
                i as nat,
                visited@,
                found,
                key@,
                authority@,
                target@,
            ),
        decreases roots@.len() - i,
    {
        let root = &roots[i];
        assert(cid_views(roots@)[i as int] == root@);
        let block = match store.get(root) {
            Some(block) => block,
            None => {
                return Err(VerifyError::MissingRoot);
            },
        };
        let commit = match SignedCommitObject::decode(block.as_slice()) {
            Some(commit) => commit,
            None => {
                return Err(VerifyError::MalformedCommit);
            },
        };
        if !str_eq(commit.did().as_str(), authority) {
            return Err(VerifyError::CommitDidMismatch);
        }
        match verify_commit_signature(&commit, key.as_slice()) {
            Ok(()) => {},
            Err(e) => {
                return Err(VerifyError::Commit(e));
            },
        }
        let report = match dfs(&store, &mut visited, Some(commit.data()), target) {
            Ok(report) => report,
            Err(e) => {
                return Err(VerifyError::Tree(e));
            },
        };
        found = found || report.found;
        i = i + 1;
    }
    if !found {
        return Err(VerifyError::NotFound);
    }
    Ok(())
}

/// Authenticates a record: its bytes must hash to the claimed identifier,
/// and a root of the archive, signed by the identity that the address
/// names, must reach that identifier through a well-formed tree.
pub fn authenticate_post_with_doc(
    uri: &str,
    cid: &str,
    record: Value,
    did_doc: &DidDocument,
    archive: Archive,
) -> (outcome: Result<(), VerifyError>)
    ensures
        outcome == authentication_outcome(uri@, cid@, record@, did_doc@, archive@),
{
    let claim = match check_record(uri, cid, record, did_doc) {
        Ok(claim) => claim,
        Err(e) => {
            return Err(e);
        },
    };
    verify_archive(&claim.target, claim.uri.authority.as_str(), did_doc, archive)
}

} // verus!
