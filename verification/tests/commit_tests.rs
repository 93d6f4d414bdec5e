use atproto_verify::cid::Cid;
use atproto_verify::codec::encode_value;
use atproto_verify::commit::{
    judge, verify_commit_signature, verify_signature, CommitError, SignatureError,
    SignatureVerdict, SignedCommitObject,
};
use atproto_verify::value::Value;
use ipld_core::ipld::Ipld;
use k256::ecdsa::signature::Signer;
use sha2::Digest;
use std::collections::BTreeMap;

fn text(s: &str) -> Value {
    Value::Text(s.to_string())
}

fn dict(entries: Vec<(&str, Value)>) -> Value {
    Value::Dict(entries.into_iter().map(|(k, v)| (k.to_string(), v)).collect())
}

fn data_root() -> Cid {
    Cid::new(1, 0x71, 0x12, sha2::Sha256::digest(b"tree").to_vec()).unwrap()
}

fn previous() -> Cid {
    Cid::new(1, 0x71, 0x12, sha2::Sha256::digest(b"previous").to_vec()).unwrap()
}

fn outside(cid: &Cid) -> cid::Cid {
    let hash = cid::multihash::Multihash::<64>::wrap(cid.hash_code(), cid.digest()).unwrap();
    cid::Cid::new_v1(cid.codec(), hash)
}

fn commit_value(prev: Option<&Cid>, signature: Vec<u8>) -> Value {
    dict(vec![
        ("did", text("did:plc:abc")),
        ("version", Value::Integer(3)),
        ("data", Value::Link(data_root())),
        ("rev", text("3k2yihcrp6f2c")),
        (
            "prev",
            match prev {
                Some(c) => Value::Link(c.clone()),
                None => Value::Null,
            },
        ),
        ("sig", Value::Bytes(signature)),
    ])
}

fn k256_key() -> k256::ecdsa::SigningKey {
    k256::ecdsa::SigningKey::from_slice(&[3u8; 32]).unwrap()
}

fn p256_key() -> p256::ecdsa::SigningKey {
    p256::ecdsa::SigningKey::from_slice(&[5u8; 32]).unwrap()
}

fn k256_blob() -> Vec<u8> {
    let mut blob = vec![0xe7, 0x01];
    blob.extend_from_slice(&k256_key().verifying_key().to_sec1_bytes());
    blob
}

fn p256_blob() -> Vec<u8> {
    let mut blob = vec![0x80, 0x24];
    blob.extend_from_slice(&p256_key().verifying_key().to_sec1_bytes());
    blob
}

fn k256_sign(message: &[u8]) -> Vec<u8> {
    let signature: k256::ecdsa::Signature = k256_key().sign(message);
    signature.to_bytes().to_vec()
}

fn p256_sign(message: &[u8]) -> Vec<u8> {
    let signature: p256::ecdsa::Signature = p256_key().sign(message);
    signature.to_bytes().to_vec()
}

fn unsigned_bytes(prev: Option<&Cid>) -> Vec<u8> {
    SignedCommitObject::from_value(&commit_value(prev, vec![]))
        .unwrap()
        .unsigned()
        .encode()
        .unwrap()
}

#[test]
fn unsigned_commit_encodes_as_the_commit_without_its_signature() {
    let mut map = BTreeMap::new();
    map.insert("did".to_string(), Ipld::String("did:plc:abc".to_string()));
    map.insert("version".to_string(), Ipld::Integer(3));
    map.insert("data".to_string(), Ipld::Link(outside(&data_root())));
    map.insert("rev".to_string(), Ipld::String("3k2yihcrp6f2c".to_string()));
    map.insert("prev".to_string(), Ipld::Null);
    let independent = serde_ipld_dagcbor::to_vec(&Ipld::Map(map.clone())).unwrap();
    assert_eq!(unsigned_bytes(None), independent);
    map.insert("prev".to_string(), Ipld::Link(outside(&previous())));
    let independent = serde_ipld_dagcbor::to_vec(&Ipld::Map(map)).unwrap();
    assert_eq!(unsigned_bytes(Some(&previous())), independent);
}

#[test]
fn unsigned_commit_value_has_five_fields() {
    let commit = SignedCommitObject::from_value(&commit_value(None, vec![1, 2, 3])).unwrap();
    let expected = dict(vec![
        ("did", text("did:plc:abc")),
        ("rev", text("3k2yihcrp6f2c")),
        ("data", Value::Link(data_root())),
        ("prev", Value::Null),
        ("version", Value::Integer(3)),
    ]);
    assert_eq!(commit.unsigned().to_value(), expected);
}

#[test]
fn signed_commit_is_read_from_its_fields() {
    let commit = SignedCommitObject::from_value(&commit_value(None, vec![1, 2, 3])).unwrap();
    assert_eq!(commit.did(), "did:plc:abc");
    assert_eq!(commit.data(), &data_root());
    assert_eq!(commit.sig(), &[1, 2, 3]);
    let bytes = encode_value(&commit_value(Some(&previous()), vec![4; 64])).unwrap();
    let decoded = SignedCommitObject::decode(&bytes).unwrap();
    assert_eq!(decoded.sig(), &[4u8; 64][..]);
    assert!(SignedCommitObject::decode(&bytes[..bytes.len() - 1]).is_none());
}

#[test]
fn commit_without_optional_previous_field_is_read() {
    let value = dict(vec![
        ("did", text("did:plc:abc")),
        ("version", Value::Integer(3)),
        ("data", Value::Link(data_root())),
        ("rev", text("r")),
        ("sig", Value::Bytes(vec![])),
    ]);
    assert!(SignedCommitObject::from_value(&value).is_some());
}

#[test]
fn commit_with_a_missing_or_mistyped_field_is_rejected() {
    let fields: Vec<(&str, Value)> = vec![
        ("did", text("did:plc:abc")),
        ("version", Value::Integer(3)),
        ("data", Value::Link(data_root())),
        ("rev", text("r")),
        ("sig", Value::Bytes(vec![])),
    ];
    for skip in 0..fields.len() {
        let mut remaining = fields.clone();
        remaining.remove(skip);
        assert!(SignedCommitObject::from_value(&dict(remaining)).is_none());
    }
    for (at, wrong) in [
        (0, Value::Integer(1)),
        (1, Value::Integer(65536)),
        (1, Value::Integer(-1)),
        (2, text("x")),
        (3, Value::Null),
        (4, text("sig")),
    ] {
        let mut changed = fields.clone();
        changed[at].1 = wrong;
        assert!(SignedCommitObject::from_value(&dict(changed)).is_none());
    }
    let mut with_previous = fields.clone();
    with_previous.push(("prev", text("x")));
    assert!(SignedCommitObject::from_value(&dict(with_previous)).is_none());
    assert!(SignedCommitObject::from_value(&Value::Null).is_none());
}

#[test]
fn signature_over_the_unsigned_commit_verifies_on_both_curves() {
    for prev in [None, Some(previous())] {
        let message = unsigned_bytes(prev.as_ref());
        let commit =
            SignedCommitObject::from_value(&commit_value(prev.as_ref(), k256_sign(&message)))
                .unwrap();
        assert_eq!(verify_commit_signature(&commit, &k256_blob()), Ok(()));
        let commit =
            SignedCommitObject::from_value(&commit_value(prev.as_ref(), p256_sign(&message)))
                .unwrap();
        assert_eq!(verify_commit_signature(&commit, &p256_blob()), Ok(()));
    }
}

#[test]
fn signature_verifies_for_several_messages_and_keys() {
    for seed in 1u8..6 {
        let message = vec![seed; seed as usize * 7];
        let k = k256::ecdsa::SigningKey::from_slice(&[seed; 32]).unwrap();
        let signature: k256::ecdsa::Signature = k.sign(&message);
        let mut blob = vec![0xe7, 0x01];
        blob.extend_from_slice(&k.verifying_key().to_sec1_bytes());
        assert_eq!(verify_signature(&message, &signature.to_bytes(), &blob), Ok(()));
        let p = p256::ecdsa::SigningKey::from_slice(&[seed; 32]).unwrap();
        let signature: p256::ecdsa::Signature = p.sign(&message);
        let mut blob = vec![0x80, 0x24];
        blob.extend_from_slice(&p.verifying_key().to_sec1_bytes());
        assert_eq!(verify_signature(&message, &signature.to_bytes(), &blob), Ok(()));
    }
}

#[test]
fn flipping_any_byte_of_the_signature_fails_verification() {
    let message = unsigned_bytes(None);
    for (signature, blob) in
        [(k256_sign(&message), k256_blob()), (p256_sign(&message), p256_blob())]
    {
        for at in 0..64 {
            let mut flipped = signature.clone();
            flipped[at] ^= 0x01;
            assert_eq!(
                verify_signature(&message, &flipped, &blob),
                Err(SignatureError::Invalid)
            );
        }
    }
}

#[test]
fn signature_over_another_message_or_by_another_key_is_invalid() {
    let message = unsigned_bytes(None);
    let signature = k256_sign(&message);
    assert_eq!(
        verify_signature(b"another message", &signature, &k256_blob()),
        Err(SignatureError::Invalid)
    );
    let other = k256::ecdsa::SigningKey::from_slice(&[9u8; 32]).unwrap();
    let mut blob = vec![0xe7, 0x01];
    blob.extend_from_slice(&other.verifying_key().to_sec1_bytes());
    assert_eq!(verify_signature(&message, &signature, &blob), Err(SignatureError::Invalid));
    let commit = SignedCommitObject::from_value(&commit_value(None, signature)).unwrap();
    assert_eq!(
        verify_commit_signature(&commit, &blob),
        Err(CommitError::Signature(SignatureError::Invalid))
    );
}

#[test]
fn signature_of_another_length_is_rejected_before_the_key_is_read() {
    let message = unsigned_bytes(None);
    let signature = k256_sign(&message);
    assert_eq!(
        verify_signature(&message, &signature[..63], &k256_blob()),
        Err(SignatureError::BadLength)
    );
    let mut longer = signature.clone();
    longer.push(0);
    assert_eq!(
        verify_signature(&message, &longer, &[0x00, 0x00]),
        Err(SignatureError::BadLength)
    );
    assert_eq!(verify_signature(&message, &[], &[]), Err(SignatureError::BadLength));
}

#[test]
fn key_with_another_prefix_is_an_unknown_format() {
    let message = unsigned_bytes(None);
    let signature = k256_sign(&message);
    let mut blob = k256_blob();
    blob[0] = 0xed;
    assert_eq!(
        verify_signature(&message, &signature, &blob),
        Err(SignatureError::UnknownKeyFormat)
    );
    assert_eq!(
        verify_signature(&message, &signature, &[0xe7]),
        Err(SignatureError::UnknownKeyFormat)
    );
    assert_eq!(verify_signature(&message, &signature, &[]), Err(SignatureError::UnknownKeyFormat));
}

#[test]
fn key_bytes_that_are_no_point_are_malformed() {
    let message = unsigned_bytes(None);
    let signature = k256_sign(&message);
    assert_eq!(
        verify_signature(&message, &signature, &[0xe7, 0x01, 0x02, 0x03]),
        Err(SignatureError::MalformedKey)
    );
    assert_eq!(
        verify_signature(&message, &signature, &[0x80, 0x24]),
        Err(SignatureError::MalformedKey)
    );
}

#[test]
fn signature_of_scalars_out_of_range_is_invalid() {
    let message = unsigned_bytes(None);
    assert_eq!(
        verify_signature(&message, &[0u8; 64], &k256_blob()),
        Err(SignatureError::Invalid)
    );
    assert_eq!(
        verify_signature(&message, &[0xffu8; 64], &p256_blob()),
        Err(SignatureError::Invalid)
    );
    let commit = SignedCommitObject::from_value(&commit_value(None, vec![0xff; 64])).unwrap();
    assert_eq!(
        verify_commit_signature(&commit, &k256_blob()),
        Err(CommitError::Signature(SignatureError::Invalid))
    );
}

#[test]
fn key_of_one_curve_does_not_verify_on_the_other() {
    let message = unsigned_bytes(None);
    let signature = k256_sign(&message);
    let mut blob = vec![0x80, 0x24];
    blob.extend_from_slice(&k256_key().verifying_key().to_sec1_bytes());
    assert_ne!(verify_signature(&message, &signature, &blob), Ok(()));
}

#[test]
fn each_verdict_has_its_outcome() {
    assert_eq!(judge(SignatureVerdict::Valid), Ok(()));
    assert_eq!(judge(SignatureVerdict::Invalid), Err(SignatureError::Invalid));
    assert_eq!(judge(SignatureVerdict::MalformedKey), Err(SignatureError::MalformedKey));
    assert_eq!(judge(SignatureVerdict::MalformedSignature), Err(SignatureError::Invalid));
}
