//! What an accepted record is owed, and what a rejected one never needs.

use crate::cid::{cid_of_text, CidView};
use crate::commit::{commit_signature_outcome, decode_commit};
use crate::did::DidDocumentView;
use crate::digest::sha256;
use crate::mst::walk;
use crate::pipeline::{
    archive_outcome, authentication_outcome, check_roots, load_blocks, multibase_payload,
    record_outcome, ArchiveView, VerifyError,
};
use crate::transcode::transcode_bytes;
use crate::uri::parse_uri;
use crate::value::Data;
use vstd::prelude::*;

verus! {

/// Whether `root` names a stored commit of the identity `authority` whose
/// signature verifies with `key`, and the walk from its data root, begun
/// with `visited`, finds `target` without meeting a violation.
pub open spec fn signed_root_finds(
    store: Map<CidView, Seq<u8>>,
    root: CidView,
    visited: Set<CidView>,
    key: Seq<u8>,
    authority: Seq<char>,
    target: CidView,
) -> bool {
    &&& store.contains_key(root)
    &&& decode_commit(store[root]) matches Some(commit)
    &&& commit.did == authority
    &&& commit_signature_outcome(commit, key) is Ok
    &&& walk(store, visited, Some(commit.data), target) matches Ok((report, _))
    &&& report.found
}

/// Where the check of the roots newly reports the target as found, one of
/// the roots is a signed root that finds it.
pub proof fn lemma_found_by_a_signed_root(
    store: Map<CidView, Seq<u8>>,
    roots: Seq<CidView>,
    i: nat,
    visited: Set<CidView>,
    key: Seq<u8>,
    authority: Seq<char>,
    target: CidView,
)
    requires
        check_roots(store, roots, i, visited, false, key, authority, target) == Ok::<
            bool,
            VerifyError,
        >(true),
    ensures
        exists|j: int, seen: Set<CidView>|
            i <= j < roots.len() && #[trigger] signed_root_finds(
                store,
                roots[j],
                seen,
                key,
                authority,
                target,
            ),
    decreases roots.len() - i,
{
    if i < roots.len() {
        let commit = decode_commit(store[roots[i as int]])->Some_0;
        let outcome = walk(store, visited, Some(commit.data), target);
        let report = outcome->Ok_0.0;
        let seen = outcome->Ok_0.1;
        if report.found {
            assert(signed_root_finds(store, roots[i as int], visited, key, authority, target));
        } else {
            lemma_found_by_a_signed_root(store, roots, i + 1, seen, key, authority, target);
        }
    }
}

/// What an accepted record is owed: its canonical bytes hash to the claimed
/// identifier, its address names the identity of the document, every block
/// of the archive hashes to its own identifier, and one of the declared
/// roots is a commit of that identity, signed with the document's key, whose
/// tree holds the identifier.
pub open spec fn proved(
    uri: Seq<char>,
    cid: Seq<char>,
    record: Data,
    doc: DidDocumentView,
    archive: ArchiveView,
) -> bool {
    &&& cid_of_text(cid) matches Some(target)
    &&& transcode_bytes(record) matches Ok(bytes)
    &&& target.names(bytes)
    &&& parse_uri(uri) matches Some(parts)
    &&& parts.authority == doc.id
    &&& load_blocks(archive.blocks) matches Ok(store)
    &&& doc.signing_key() matches Ok(text)
    &&& multibase_payload(text) matches Some(key)
    &&& exists|j: int, seen: Set<CidView>|
        0 <= j < archive.roots.len() && #[trigger] signed_root_finds(
            store,
            archive.roots[j],
            seen,
            key,
            parts.authority,
            target,
        )
}

/// A record is authenticated only if it is proved.
pub proof fn law_authenticated_record_is_proved(
    uri: Seq<char>,
    cid: Seq<char>,
    record: Data,
    doc: DidDocumentView,
    archive: ArchiveView,
)
    requires
        authentication_outcome(uri, cid, record, doc, archive) is Ok,
    ensures
        proved(uri, cid, record, doc, archive),
{
    let claim = record_outcome(uri, cid, record, doc)->Ok_0;
    let store = load_blocks(archive.blocks)->Ok_0;
    let key = multibase_payload(doc.signing_key()->Ok_0)->Some_0;
    assert(archive_outcome(claim.target, claim.uri.authority, doc, archive) is Ok);
    lemma_found_by_a_signed_root(
        store,
        archive.roots,
        0,
        Set::empty(),
        key,
        claim.uri.authority,
        claim.target,
    );
}

/// A record that fails the first stage fails with the same error whatever
/// the archive holds: nothing needs to be fetched to reject it.
pub proof fn law_first_stage_failure_needs_no_archive(
    uri: Seq<char>,
    cid: Seq<char>,
    record: Data,
    doc: DidDocumentView,
    archive: ArchiveView,
)
    requires
        record_outcome(uri, cid, record, doc) is Err,
    ensures
        authentication_outcome(uri, cid, record, doc, archive) == Err::<(), VerifyError>(
            record_outcome(uri, cid, record, doc)->Err_0,
        ),
{
}

/// A record whose canonical bytes do not hash to the claimed identifier is
/// rejected with a hash mismatch, whatever its address, the document and
/// the archive say.
pub proof fn law_wrong_digest_is_a_hash_mismatch(
    uri: Seq<char>,
    cid: Seq<char>,
    record: Data,
    doc: DidDocumentView,
    archive: ArchiveView,
)
    requires
        cid_of_text(cid) is Some,
        cid_of_text(cid)->Some_0.is_sha256(),
        transcode_bytes(record) is Ok,
        cid_of_text(cid)->Some_0.digest != sha256(transcode_bytes(record)->Ok_0),
    ensures
        authentication_outcome(uri, cid, record, doc, archive) == Err::<(), VerifyError>(
            VerifyError::RecordHashMismatch,
        ),
{
}

/// Where every block of the archive passes its hash check and the first
/// declared root is a commit of the identity whose signature is not
/// accepted, the archive is rejected with the error of that signature: an
/// invalid signature is reported as such, after the hash checks and before
/// any tree is walked.
pub proof fn law_rejected_signature_is_reported(
    target: CidView,
    authority: Seq<char>,
    doc: DidDocumentView,
    archive: ArchiveView,
)
    requires
        load_blocks(archive.blocks) is Ok,
        doc.signing_key() is Ok,
        multibase_payload(doc.signing_key()->Ok_0) is Some,
        archive.roots.len() > 0,
        load_blocks(archive.blocks)->Ok_0.contains_key(archive.roots[0]),
        decode_commit(load_blocks(archive.blocks)->Ok_0[archive.roots[0]]) is Some,
        decode_commit(load_blocks(archive.blocks)->Ok_0[archive.roots[0]])->Some_0.did
            == authority,
        commit_signature_outcome(
            decode_commit(load_blocks(archive.blocks)->Ok_0[archive.roots[0]])->Some_0,
            multibase_payload(doc.signing_key()->Ok_0)->Some_0,
        ) is Err,
    ensures
        archive_outcome(target, authority, doc, archive) == Err::<(), VerifyError>(
            VerifyError::Commit(
                commit_signature_outcome(
                    decode_commit(load_blocks(archive.blocks)->Ok_0[archive.roots[0]])->Some_0,
                    multibase_payload(doc.signing_key()->Ok_0)->Some_0,
                )->Err_0,
            ),
        ),
{
}

/// A store that was filled from an archive holds finitely many blocks, as
/// the laws of the walk ask.
pub proof fn law_loaded_store_is_finite(blocks: Seq<(CidView, Seq<u8>)>)
    ensures
        load_blocks(blocks) matches Ok(store) ==> store.dom().finite(),
    decreases blocks.len(),
{
    if blocks.len() > 0 {
        law_loaded_store_is_finite(blocks.drop_last());
    }
}

/// Every block of a store that was filled from an archive hashes to the
/// identifier under which it is stored.
pub proof fn law_stored_blocks_are_hash_verified(blocks: Seq<(CidView, Seq<u8>)>, cid: CidView)
    requires
        load_blocks(blocks) matches Ok(store) && store.contains_key(cid),
    ensures
        cid.names(load_blocks(blocks)->Ok_0[cid]),
    decreases blocks.len(),
{
    if blocks.len() > 0 {
        let (last, bytes) = blocks.last();
        if last != cid {
            law_stored_blocks_are_hash_verified(blocks.drop_last(), cid);
        }
    }
}

} // verus!
