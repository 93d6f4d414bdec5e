use atproto_verify::cid::Cid;
use atproto_verify::codec::encode_value;
use atproto_verify::commit::{CommitError, SignatureError};
use atproto_verify::did::{DidDocument, DidError, DidService, DidVerificationMethod};
use atproto_verify::digest::compute_key_depth;
use atproto_verify::mst::MstError;
use atproto_verify::pipeline::{
    authenticate_post_with_doc, check_record, did_document_request, verify_archive, Archive,
    VerifyError,
};
use atproto_verify::transcode::TranscodeError;
use atproto_verify::value::Value;
use k256::ecdsa::signature::Signer;
use sha2::Digest;

const DID: &str = "did:plc:ewvi7nxzyoun6zhxrhs64oiz";

fn sha256(bytes: &[u8]) -> Vec<u8> {
    sha2::Sha256::digest(bytes).to_vec()
}

fn cid_of(bytes: &[u8]) -> Cid {
    Cid::new(1, 0x71, 0x12, sha256(bytes)).unwrap()
}

fn cid_text(cid: &Cid) -> String {
    let hash = cid::multihash::Multihash::<64>::wrap(cid.hash_code(), cid.digest()).unwrap();
    cid::Cid::new_v1(cid.codec(), hash).to_string()
}

fn text(s: &str) -> Value {
    Value::Text(s.to_string())
}

fn dict(entries: Vec<(&str, Value)>) -> Value {
    Value::Dict(entries.into_iter().map(|(k, v)| (k.to_string(), v)).collect())
}

fn link(cid: Option<&Cid>) -> Value {
    match cid {
        Some(c) => Value::Link(c.clone()),
        None => Value::Null,
    }
}

fn block(value: &Value) -> (Cid, Vec<u8>) {
    let bytes = encode_value(value).unwrap();
    (cid_of(&bytes), bytes)
}

fn shared_prefix(a: &[u8], b: &[u8]) -> usize {
    let mut n = 0;
    while n < a.len() && n < b.len() && a[n] == b[n] {
        n += 1;
    }
    n
}

fn node(left: Option<&Cid>, items: &[(String, Cid, Option<Cid>)]) -> Value {
    let mut previous: Vec<u8> = Vec::new();
    let mut entries = Vec::new();
    for (key, value, right) in items {
        let p = shared_prefix(&previous, key.as_bytes());
        entries.push(dict(vec![
            ("k", text(&key[p..])),
            ("p", Value::Integer(p as i128)),
            ("t", link(right.as_ref())),
            ("v", Value::Link(value.clone())),
        ]));
        previous = key.as_bytes().to_vec();
    }
    dict(vec![("e", Value::List(entries)), ("l", link(left))])
}

fn keys_of_depth(depth: u32, count: usize) -> Vec<String> {
    let mut keys = Vec::new();
    let mut n = 0u32;
    while keys.len() < count {
        let key = format!("app.bsky.feed.post/{:06}", n);
        if compute_key_depth(key.as_bytes()) == depth {
            keys.push(key);
        }
        n += 1;
    }
    keys
}

fn signing_key() -> k256::ecdsa::SigningKey {
    k256::ecdsa::SigningKey::from_slice(&[7u8; 32]).unwrap()
}

fn key_blob() -> Vec<u8> {
    let mut blob = vec![0xe7, 0x01];
    blob.extend_from_slice(&signing_key().verifying_key().to_sec1_bytes());
    blob
}

fn did_doc() -> DidDocument {
    DidDocument {
        id: DID.to_string(),
        service: Some(vec![DidService {
            id: "#atproto_pds".to_string(),
            service_type: "AtprotoPersonalDataServer".to_string(),
            service_endpoint: "https://pds.example".to_string(),
        }]),
        verification_method: Some(vec![DidVerificationMethod {
            id: format!("{}#atproto", DID),
            public_key_multibase: libipld::multibase::encode(
                libipld::multibase::Base::Base58Btc,
                key_blob(),
            ),
        }]),
    }
}

fn unsigned_commit(did: &str, data: &Cid) -> Value {
    dict(vec![
        ("did", text(did)),
        ("rev", text("3k2yihcrp6f2c")),
        ("data", Value::Link(data.clone())),
        ("prev", Value::Null),
        ("version", Value::Integer(3)),
    ])
}

fn signed_commit(did: &str, data: &Cid, signature: Vec<u8>) -> Value {
    dict(vec![
        ("did", text(did)),
        ("rev", text("3k2yihcrp6f2c")),
        ("data", Value::Link(data.clone())),
        ("prev", Value::Null),
        ("version", Value::Integer(3)),
        ("sig", Value::Bytes(signature)),
    ])
}

fn sign(message: &[u8]) -> Vec<u8> {
    let signature: k256::ecdsa::Signature = signing_key().sign(message);
    signature.to_bytes().to_vec()
}

fn record() -> Value {
    dict(vec![("a", Value::Integer(1))])
}

fn record_cid() -> Cid {
    cid_of(&[0xa1, 0x61, 0x61, 0x01])
}

fn uri() -> String {
    format!("at://{}/app.bsky.feed.post/3k2yihcrp6f2c", DID)
}

/// An archive with one signed root over a one-node tree that maps three
/// keys; the second maps to `held`.
fn archive_holding(held: &Cid, flip_signature: bool) -> Archive {
    let other = cid_of(b"another record");
    let keys = keys_of_depth(0, 3);
    let tree = node(
        None,
        &[
            (keys[0].clone(), other.clone(), None),
            (keys[1].clone(), held.clone(), None),
            (keys[2].clone(), other.clone(), None),
        ],
    );
    let (tree_cid, tree_bytes) = block(&tree);
    let message = encode_value(&unsigned_commit(DID, &tree_cid)).unwrap();
    let mut signature = sign(&message);
    if flip_signature {
        signature[10] ^= 0x01;
    }
    let (commit_cid, commit_bytes) = block(&signed_commit(DID, &tree_cid, signature));
    Archive {
        roots: vec![commit_cid.clone()],
        blocks: vec![(commit_cid, commit_bytes), (tree_cid, tree_bytes)],
    }
}

#[test]
fn record_in_signed_tree_is_authenticated() {
    let target = record_cid();
    let outcome = authenticate_post_with_doc(
        &uri(),
        &cid_text(&target),
        record(),
        &did_doc(),
        archive_holding(&target, false),
    );
    assert_eq!(outcome, Ok(()));
}

#[test]
fn flipped_cid_byte_is_a_hash_mismatch_whatever_the_archive() {
    let target = record_cid();
    let mut digest = target.digest().to_vec();
    digest[31] ^= 0x01;
    let claimed = Cid::new(1, 0x71, 0x12, digest).unwrap();
    let outcome = authenticate_post_with_doc(
        &uri(),
        &cid_text(&claimed),
        record(),
        &did_doc(),
        archive_holding(&target, false),
    );
    assert_eq!(outcome, Err(VerifyError::RecordHashMismatch));
    let first = check_record(&uri(), &cid_text(&claimed), record(), &did_doc());
    assert_eq!(first.err(), Some(VerifyError::RecordHashMismatch));
}

#[test]
fn flipped_signature_byte_is_signature_invalid() {
    let target = record_cid();
    let outcome = authenticate_post_with_doc(
        &uri(),
        &cid_text(&target),
        record(),
        &did_doc(),
        archive_holding(&target, true),
    );
    assert_eq!(
        outcome,
        Err(VerifyError::Commit(CommitError::Signature(SignatureError::Invalid)))
    );
}

#[test]
fn absent_target_is_not_found() {
    let target = record_cid();
    let held = cid_of(b"some other record");
    let outcome = authenticate_post_with_doc(
        &uri(),
        &cid_text(&target),
        record(),
        &did_doc(),
        archive_holding(&held, false),
    );
    assert_eq!(outcome, Err(VerifyError::NotFound));
}

#[test]
fn entries_of_different_depths_are_rejected_under_a_valid_signature() {
    let target = record_cid();
    let shallow = keys_of_depth(0, 1).remove(0);
    let deep = keys_of_depth(1, 1).remove(0);
    let mut keys = vec![shallow, deep];
    keys.sort();
    let tree = node(
        None,
        &[(keys[0].clone(), target.clone(), None), (keys[1].clone(), target.clone(), None)],
    );
    let (tree_cid, tree_bytes) = block(&tree);
    let message = encode_value(&unsigned_commit(DID, &tree_cid)).unwrap();
    let (commit_cid, commit_bytes) = block(&signed_commit(DID, &tree_cid, sign(&message)));
    let archive = Archive {
        roots: vec![commit_cid.clone()],
        blocks: vec![(commit_cid, commit_bytes), (tree_cid, tree_bytes)],
    };
    let outcome = verify_archive(&target, DID, &did_doc(), archive);
    assert_eq!(outcome, Err(VerifyError::Tree(MstError::DepthInconsistent)));
}

#[test]
fn unparsable_cid_is_malformed() {
    let outcome = check_record(&uri(), "not a cid", record(), &did_doc());
    assert_eq!(outcome.err(), Some(VerifyError::MalformedCid));
}

#[test]
fn cid_with_another_hash_is_unsupported() {
    let hash = cid::multihash::Multihash::<64>::wrap(0x13, &[0u8; 64]).unwrap();
    let claimed = cid::Cid::new_v1(0x71, hash).to_string();
    let outcome = check_record(&uri(), &claimed, record(), &did_doc());
    assert_eq!(outcome.err(), Some(VerifyError::UnsupportedCid));
}

#[test]
fn record_with_bad_link_fails_to_transcode() {
    let bad = dict(vec![("ref", dict(vec![("$link", text("nonsense"))]))]);
    let outcome = check_record(&uri(), &cid_text(&record_cid()), bad, &did_doc());
    assert_eq!(outcome.err(), Some(VerifyError::Transcode(TranscodeError::InvalidLink)));
}

#[test]
fn uri_without_scheme_or_with_wrong_segment_count_is_invalid() {
    let target = cid_text(&record_cid());
    for bad in [
        format!("http://{}/app.bsky.feed.post/3k2yihcrp6f2c", DID),
        format!("at://{}/app.bsky.feed.post", DID),
        format!("at://{}/app.bsky.feed.post/3k2yihcrp6f2c/x", DID),
        "at:".to_string(),
    ] {
        let outcome = check_record(&bad, &target, record(), &did_doc());
        assert_eq!(outcome.err(), Some(VerifyError::InvalidUri));
    }
}

#[test]
fn uri_of_another_identity_is_a_did_mismatch() {
    let target = cid_text(&record_cid());
    let outcome = check_record(
        "at://did:plc:someoneelse/app.bsky.feed.post/3k2yihcrp6f2c",
        &target,
        record(),
        &did_doc(),
    );
    assert_eq!(outcome.err(), Some(VerifyError::DidMismatch));
}

#[test]
fn document_without_services_gives_no_service() {
    let mut doc = did_doc();
    doc.service = None;
    let outcome = check_record(&uri(), &cid_text(&record_cid()), record(), &doc);
    assert_eq!(outcome.err(), Some(VerifyError::Did(DidError::NoService)));
    doc.service = Some(vec![]);
    let outcome = check_record(&uri(), &cid_text(&record_cid()), record(), &doc);
    assert_eq!(outcome.err(), Some(VerifyError::Did(DidError::PdsNotFound)));
}

#[test]
fn first_stage_gives_the_archive_address() {
    let claim = check_record(&uri(), &cid_text(&record_cid()), record(), &did_doc()).unwrap();
    assert_eq!(claim.target, record_cid());
    assert_eq!(claim.uri.authority, DID);
    assert_eq!(claim.uri.collection, "app.bsky.feed.post");
    assert_eq!(claim.uri.rkey, "3k2yihcrp6f2c");
    assert_eq!(
        claim.archive_url(),
        format!(
            "https://pds.example/xrpc/com.atproto.sync.getRecord?did={}&collection=app.bsky.feed.post&rkey=3k2yihcrp6f2c",
            DID
        )
    );
}

#[test]
fn tampered_block_is_a_block_hash_mismatch() {
    let target = record_cid();
    let mut archive = archive_holding(&target, false);
    archive.blocks[1].1[0] ^= 0x01;
    let outcome = verify_archive(&target, DID, &did_doc(), archive);
    assert_eq!(outcome, Err(VerifyError::BlockHashMismatch));
}

#[test]
fn block_with_another_hash_is_unsupported() {
    let target = record_cid();
    let mut archive = archive_holding(&target, false);
    archive.blocks.push((Cid::new(1, 0x71, 0x13, vec![0u8; 64]).unwrap(), vec![1, 2, 3]));
    let outcome = verify_archive(&target, DID, &did_doc(), archive);
    assert_eq!(outcome, Err(VerifyError::UnsupportedCid));
}

#[test]
fn document_without_signing_key_is_reported() {
    let target = record_cid();
    let mut doc = did_doc();
    doc.verification_method = None;
    let outcome = verify_archive(&target, DID, &doc, archive_holding(&target, false));
    assert_eq!(outcome, Err(VerifyError::Did(DidError::NoVerificationMethod)));
    doc.verification_method = Some(vec![DidVerificationMethod {
        id: "did:plc:other#atproto".to_string(),
        public_key_multibase: "zabc".to_string(),
    }]);
    let outcome = verify_archive(&target, DID, &doc, archive_holding(&target, false));
    assert_eq!(outcome, Err(VerifyError::Did(DidError::SigningKeyNotFound)));
}

#[test]
fn signing_key_that_is_not_multibase_is_malformed() {
    let target = record_cid();
    let mut doc = did_doc();
    doc.verification_method = Some(vec![DidVerificationMethod {
        id: format!("{}#atproto", DID),
        public_key_multibase: "?not multibase".to_string(),
    }]);
    let outcome = verify_archive(&target, DID, &doc, archive_holding(&target, false));
    assert_eq!(outcome, Err(VerifyError::MalformedSigningKey));
}

#[test]
fn declared_root_without_block_is_missing() {
    let target = record_cid();
    let mut archive = archive_holding(&target, false);
    archive.roots = vec![cid_of(b"no such block")];
    let outcome = verify_archive(&target, DID, &did_doc(), archive);
    assert_eq!(outcome, Err(VerifyError::MissingRoot));
}

#[test]
fn root_that_is_no_commit_is_malformed() {
    let target = record_cid();
    let mut archive = archive_holding(&target, false);
    archive.roots = vec![archive.blocks[1].0.clone()];
    let outcome = verify_archive(&target, DID, &did_doc(), archive);
    assert_eq!(outcome, Err(VerifyError::MalformedCommit));
}

#[test]
fn commit_of_another_identity_is_rejected() {
    let target = record_cid();
    let outcome =
        verify_archive(&target, "did:plc:someoneelse", &did_doc(), archive_holding(&target, false));
    assert_eq!(outcome, Err(VerifyError::CommitDidMismatch));
}

#[test]
fn archive_without_roots_finds_nothing() {
    let target = record_cid();
    let mut archive = archive_holding(&target, false);
    archive.roots = vec![];
    let outcome = verify_archive(&target, DID, &did_doc(), archive);
    assert_eq!(outcome, Err(VerifyError::NotFound));
}

#[test]
fn document_address_follows_the_did_method() {
    assert_eq!(
        did_document_request(&uri()),
        Ok(format!("https://plc.directory/{}", DID))
    );
    assert_eq!(
        did_document_request("at://did:web:example.com/app.bsky.feed.post/abc"),
        Ok("https://example.com/.well-known/did.json".to_string())
    );
    assert_eq!(
        did_document_request("at://did:key:z6Mk/app.bsky.feed.post/abc"),
        Err(VerifyError::Did(DidError::InvalidDid))
    );
    assert_eq!(
        did_document_request("at://did:plc:abc/app.bsky.feed.post"),
        Err(VerifyError::InvalidUri)
    );
}
