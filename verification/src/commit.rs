//! Commit objects and the check of their signature.

use crate::cid::{Cid, CidView};
use crate::codec::{
    dagcbor_decode, dagcbor_encode, decode_value, encode_value, no_repeated_key,
};
use crate::node::{opt_cid_view, optional_link, read_optional_link};
use crate::value::{dict_data, dict_get, dict_lookup, lemma_dict_data, Data, Value};
use k256::ecdsa::signature::Verifier;
use vstd::prelude::*;
use vstd::slice::slice_subrange;
use vstd::string::*;

verus! {

/// What a signed commit says.
pub struct SignedCommitView {
    pub did: Seq<char>,
    pub version: u16,
    pub data: CidView,
    pub rev: Seq<char>,
    pub prev: Option<CidView>,
    pub sig: Seq<u8>,
}

/// What an unsigned commit says: the signed commit without its signature.
pub struct UnsignedCommitView {
    pub did: Seq<char>,
    pub rev: Seq<char>,
    pub data: CidView,
    pub prev: Option<CidView>,
    pub version: u16,
}

/// The signed root record of a repository snapshot.
pub struct SignedCommitObject {
    did: String,
    version: u16,
    data: Cid,
    rev: String,
    prev: Option<Cid>,
    sig: Vec<u8>,
}

/// A commit without its signature. Its canonical encoding is what the
/// signature was computed over.
pub struct UnsignedCommitObject {
    did: String,
    rev: String,
    data: Cid,
    prev: Option<Cid>,
    version: u16,
}

impl View for SignedCommitObject {
    type V = SignedCommitView;

    closed spec fn view(&self) -> SignedCommitView {
        SignedCommitView {
            did: self.did@,
            version: self.version,
            data: self.data@,
            rev: self.rev@,
            prev: opt_cid_view(self.prev),
            sig: self.sig@,
        }
    }
}

impl View for UnsignedCommitObject {
    type V = UnsignedCommitView;

    closed spec fn view(&self) -> UnsignedCommitView {
        UnsignedCommitView {
            did: self.did@,
            rev: self.rev@,
            data: self.data@,
            prev: opt_cid_view(self.prev),
            version: self.version,
        }
    }
}

impl SignedCommitView {
    /// The same commit without the signature.
    pub open spec fn unsigned(self) -> UnsignedCommitView {
        UnsignedCommitView {
            did: self.did,
            rev: self.rev,
            data: self.data,
            prev: self.prev,
            version: self.version,
        }
    }
}

impl UnsignedCommitView {
    /// The commit as a value: a dictionary of its five fields, with a null
    /// where there is no previous commit.
    pub open spec fn to_data(self) -> Data {
        Data::Dict(
            seq![
                ("did"@, Data::Text(self.did)),
                ("rev"@, Data::Text(self.rev)),
                ("data"@, Data::Link(self.data)),
                (
                    "prev"@,
                    match self.prev {
                        Some(cid) => Data::Link(cid),
                        None => Data::Null,
                    },
                ),
                ("version"@, Data::Integer(self.version as int)),
            ],
        )
    }
}

/// The five fields of an unsigned commit have five different keys, so the
/// commit is refused by the encoder for no repeated key.
pub proof fn law_unsigned_commit_keys_differ(commit: UnsignedCommitView)
    ensures
        no_repeated_key(commit.to_data()),
        dagcbor_encode(commit.to_data()) == crate::codec::dagcbor_bytes(
            crate::codec::canonical(commit.to_data()),
        ),
{
    reveal_strlit("did");
    reveal_strlit("rev");
    reveal_strlit("data");
    reveal_strlit("prev");
    reveal_strlit("version");
    let entries = commit.to_data()->Dict_0;
    assert(entries[0].0.len() == 3 && entries[1].0.len() == 3 && entries[2].0.len() == 4
        && entries[3].0.len() == 4 && entries[4].0.len() == 7);
    assert(entries[0].0[0] != entries[1].0[0]);
    assert(entries[2].0[0] != entries[3].0[0]);
    assert(crate::codec::keys_distinct(entries));
    assert forall|i: int| 0 <= i < entries.len() implies no_repeated_key(
        (#[trigger] entries[i]).1,
    ) by {
        if i == 0 {
        } else if i == 1 {
        } else if i == 2 {
        } else if i == 3 {
        } else {
        }
    }
}

/// The signed commit that a decoded value describes: a dictionary with the
/// texts `did` and `rev`, the integer `version` (16 bits), the link `data`,
/// the bytes `sig` and optionally the link `prev`.
pub open spec fn commit_of_data(data: Data) -> Option<SignedCommitView> {
    match data {
        Data::Dict(fields) => match (
            dict_lookup(fields, "did"@),
            dict_lookup(fields, "version"@),
            dict_lookup(fields, "data"@),
            dict_lookup(fields, "rev"@),
            optional_link(dict_lookup(fields, "prev"@)),
            dict_lookup(fields, "sig"@),
        ) {
            (
                Some(Data::Text(did)),
                Some(Data::Integer(version)),
                Some(Data::Link(data)),
                Some(Data::Text(rev)),
                Some(prev),
                Some(Data::Bytes(sig)),
            ) => if 0 <= version <= u16::MAX {
                Some(SignedCommitView { did, version: version as u16, data, rev, prev, sig })
            } else {
                None
            },
            _ => None,
        },
        _ => None,
    }
}

/// The signed commit that a block's bytes hold.
pub open spec fn decode_commit(bytes: Seq<u8>) -> Option<SignedCommitView> {
    match dagcbor_decode(bytes) {
        Some(data) => commit_of_data(data),
        None => None,
    }
}

impl SignedCommitObject {
    /// The identity that the repository belongs to.
    pub fn did(&self) -> (did: &String)
        ensures
            did@ == self@.did,
    {
        &self.did
    }

    /// The root of the repository's tree.
    pub fn data(&self) -> (data: &Cid)
        ensures
            data@ == self@.data,
    {
        &self.data
    }

    /// The signature.
    pub fn sig(&self) -> (sig: &[u8])
        ensures
            sig@ == self@.sig,
    {
        self.sig.as_slice()
    }

    /// Reads a signed commit from a decoded value.
    pub fn from_value(value: &Value) -> (commit: Option<SignedCommitObject>)
        ensures
            commit is Some <==> commit_of_data(value@) is Some,
            commit matches Some(c) ==> commit_of_data(value@) == Some(c@),
    {
        let fields = match value {
            Value::Dict(fields) => fields,
            _ => { return None; },
        };
        let did: String = match dict_get(fields, "did") {
            Some(Value::Text(text)) => text.clone(),
            _ => { return None; },
        };
        let version: u16 = match dict_get(fields, "version") {
            Some(Value::Integer(n)) => {
                if *n < 0 || *n > 0xffff {
                    return None;
                }
                *n as u16
            },
            _ => { return None; },
        };
        let data: Cid = match dict_get(fields, "data") {
            Some(Value::Link(cid)) => cid.clone(),
            _ => { return None; },
        };
        let rev: String = match dict_get(fields, "rev") {
            Some(Value::Text(text)) => text.clone(),
            _ => { return None; },
        };
        let prev: Option<Cid> = match read_optional_link(dict_get(fields, "prev")) {
            Ok(prev) => prev,
            Err(_) => { return None; },
        };
        let sig: Vec<u8> = match dict_get(fields, "sig") {
            Some(Value::Bytes(bytes)) => bytes.clone(),
            _ => { return None; },
        };
        Some(SignedCommitObject { did, version, data, rev, prev, sig })
    }

    /// Decodes a signed commit from the bytes of a block.
    pub fn decode(bytes: &[u8]) -> (commit: Option<SignedCommitObject>)
        ensures
            commit is Some <==> decode_commit(bytes@) is Some,
            commit matches Some(c) ==> decode_commit(bytes@) == Some(c@),
    {
        match decode_value(bytes) {
            Ok(value) => SignedCommitObject::from_value(&value),
            Err(_) => None,
        }
    }

    /// Rebuilds the unsigned commit: the same fields without the signature.
    pub fn unsigned(&self) -> (unsigned: UnsignedCommitObject)
        ensures
            unsigned@ == self@.unsigned(),
    {
        UnsignedCommitObject {
            did: self.did.clone(),
            rev: self.rev.clone(),
            data: self.data.clone(),
            prev: match &self.prev {
                Some(cid) => Some(cid.clone()),
                None => None,
            },
            version: self.version,
        }
    }
}

impl UnsignedCommitObject {
    /// The commit as a value.
    pub fn to_value(&self) -> (value: Value)
        ensures
            value@ == self@.to_data(),
    {
        let mut fields: Vec<(String, Value)> = Vec::new();
        fields.push((String::from_str("did"), Value::Text(self.did.clone())));
        fields.push((String::from_str("rev"), Value::Text(self.rev.clone())));
        fields.push((String::from_str("data"), Value::Link(self.data.clone())));
        fields.push(
            (
                String::from_str("prev"),
                match &self.prev {
                    Some(cid) => Value::Link(cid.clone()),
                    None => Value::Null,
                },
            ),
        );
        fields.push((String::from_str("version"), Value::Integer(self.version as i128)));
        proof {
            lemma_dict_data(fields@);
            assert(dict_data(fields@) =~= self@.to_data()->Dict_0);
        }
        Value::Dict(fields)
    }

    /// The canonical encoding of the commit: the bytes that were signed.
    pub fn encode(&self) -> (bytes: Option<Vec<u8>>)
        ensures
            bytes is Some <==> dagcbor_encode(self@.to_data()) is Some,
            bytes matches Some(b) ==> dagcbor_encode(self@.to_data()) == Some(b@),
    {
        let value = self.to_value();
        match encode_value(&value) {
            Ok(b) => Some(b),
            Err(_) => None,
        }
    }
}

/// What a signature check by one of the curve libraries says.
#[derive(Clone, Copy, Debug, PartialEq, Eq, Structural)]
pub enum SignatureVerdict {
    /// The signature is one over the message by the key.
    Valid,
    /// The key and the signature are well formed, and the signature is not
    /// one over the message by the key.
    Invalid,
    /// The key bytes are not a point of the curve in SEC1 form.
    MalformedKey,
    /// The signature bytes are not two scalars in range.
    MalformedSignature,
}

/// Why a signature was not accepted.
#[derive(Clone, Copy, Debug, PartialEq, Eq, Structural)]
pub enum SignatureError {
    /// The signature is not 64 bytes long.
    BadLength,
    /// The key does not start with the prefix of a supported curve.
    UnknownKeyFormat,
    /// The key bytes after the prefix are not a public key of the curve.
    MalformedKey,
    /// The signature is not one over the message by the key; this includes
    /// a signature whose halves are not scalars in range.
    Invalid,
}

/// The verdict of `k256` on an ECDSA signature over secp256k1 with SHA-256:
/// `key` in SEC1 form, `signature` as the scalars r and s, 32 bytes each.
pub uninterp spec fn secp256k1_verdict(
    key: Seq<u8>,
    message: Seq<u8>,
    signature: Seq<u8>,
) -> SignatureVerdict;

/// The verdict of `p256` on an ECDSA signature over NIST P-256 with
/// SHA-256: `key` in SEC1 form, `signature` as the scalars r and s, 32 bytes
/// each.
pub uninterp spec fn p256_verdict(
    key: Seq<u8>,
    message: Seq<u8>,
    signature: Seq<u8>,
) -> SignatureVerdict;

/// Parses the key with `k256::ecdsa::VerifyingKey::from_sec1_bytes` and the
/// signature with `k256::ecdsa::Signature::from_slice`, then calls `verify`
/// of the key. Each step's failure gives its own verdict. The verdict
/// depends on the three byte strings alone.
#[verifier::external_body]
fn secp256k1_verify(key: &[u8], message: &[u8], signature: &[u8]) -> (verdict: SignatureVerdict)
    ensures
        verdict == secp256k1_verdict(key@, message@, signature@),
{
    let Ok(key) = k256::ecdsa::VerifyingKey::from_sec1_bytes(key) else {
        return SignatureVerdict::MalformedKey;
    };
    let Ok(signature) = k256::ecdsa::Signature::from_slice(signature) else {
        return SignatureVerdict::MalformedSignature;
    };
    match key.verify(message, &signature) {
        Ok(()) => SignatureVerdict::Valid,
        Err(_) => SignatureVerdict::Invalid,
    }
}

/// Parses the key with `p256::ecdsa::VerifyingKey::from_sec1_bytes` and the
/// signature with `p256::ecdsa::Signature::from_slice`, then calls `verify`
/// of the key. Each step's failure gives its own verdict. The verdict
/// depends on the three byte strings alone.
#[verifier::external_body]
fn p256_verify(key: &[u8], message: &[u8], signature: &[u8]) -> (verdict: SignatureVerdict)
    ensures
        verdict == p256_verdict(key@, message@, signature@),
{
    let Ok(key) = p256::ecdsa::VerifyingKey::from_sec1_bytes(key) else {
        return SignatureVerdict::MalformedKey;
    };
    let Ok(signature) = p256::ecdsa::Signature::from_slice(signature) else {
        return SignatureVerdict::MalformedSignature;
    };
    match key.verify(message, &signature) {
        Ok(()) => SignatureVerdict::Valid,
        Err(_) => SignatureVerdict::Invalid,
    }
}

/// What a verdict means for the caller: a signature that is not accepted
/// is invalid, whether its scalars are out of range or it fails the curve's
/// equation; only a key that is no point of the curve is told apart.
pub open spec fn verdict_outcome(verdict: SignatureVerdict) -> Result<(), SignatureError> {
    match verdict {
        SignatureVerdict::Valid => Ok(()),
        SignatureVerdict::Invalid => Err(SignatureError::Invalid),
        SignatureVerdict::MalformedKey => Err(SignatureError::MalformedKey),
        SignatureVerdict::MalformedSignature => Err(SignatureError::Invalid),
    }
}

/// Turns a verdict into the caller's result.
pub fn judge(verdict: SignatureVerdict) -> (outcome: Result<(), SignatureError>)
    ensures
        outcome == verdict_outcome(verdict),
{
    match verdict {
        SignatureVerdict::Valid => Ok(()),
        SignatureVerdict::Invalid => Err(SignatureError::Invalid),
        SignatureVerdict::MalformedKey => Err(SignatureError::MalformedKey),
        SignatureVerdict::MalformedSignature => Err(SignatureError::Invalid),
    }
}

/// Under a key that is a point of its curve, a signature of 64 bytes is
/// either accepted or invalid: no alteration of its bytes gives any other
/// error.
pub proof fn law_signature_is_accepted_or_invalid(
    message: Seq<u8>,
    signature: Seq<u8>,
    key: Seq<u8>,
)
    requires
        signature.len() == 64,
        is_secp256k1_key(key) || is_p256_key(key),
        is_secp256k1_key(key) ==> secp256k1_verdict(key.skip(2), message, signature)
            != SignatureVerdict::MalformedKey,
        !is_secp256k1_key(key) ==> p256_verdict(key.skip(2), message, signature)
            != SignatureVerdict::MalformedKey,
    ensures
        signature_outcome(message, signature, key) is Ok || signature_outcome(
            message,
            signature,
            key,
        ) == Err::<(), SignatureError>(SignatureError::Invalid),
{
}

/// Whether a key blob starts with the prefix of secp256k1, `e7 01`.
pub open spec fn is_secp256k1_key(key: Seq<u8>) -> bool {
    key.len() >= 2 && key[0] == 0xe7 && key[1] == 0x01
}

/// Whether a key blob starts with the prefix of NIST P-256, `80 24`.
pub open spec fn is_p256_key(key: Seq<u8>) -> bool {
    key.len() >= 2 && key[0] == 0x80 && key[1] == 0x24
}

/// The outcome of checking a detached signature over `message`: the
/// signature must be 64 bytes, the first two bytes of the key blob select
/// the curve, and the curve's verdict on the rest of the blob decides.
pub open spec fn signature_outcome(message: Seq<u8>, signature: Seq<u8>, key: Seq<u8>) -> Result<
    (),
    SignatureError,
> {
    if signature.len() != 64 {
        Err(SignatureError::BadLength)
    } else if is_secp256k1_key(key) {
        verdict_outcome(secp256k1_verdict(key.skip(2), message, signature))
    } else if is_p256_key(key) {
        verdict_outcome(p256_verdict(key.skip(2), message, signature))
    } else {
        Err(SignatureError::UnknownKeyFormat)
    }
}

/// Checks a detached 64-byte signature over `message` with the public key
/// in `key`, a blob whose first two bytes name the curve.
pub fn verify_signature(message: &[u8], signature: &[u8], key: &[u8]) -> (outcome: Result<
    (),
    SignatureError,
>)
    ensures
        outcome == signature_outcome(message@, signature@, key@),
{
    if signature.len() != 64 {
        return Err(SignatureError::BadLength);
    }
    if key.len() < 2 {
        return Err(SignatureError::UnknownKeyFormat);
    }
    let point = slice_subrange(key, 2, key.len());
    assert(point@ =~= key@.skip(2));
    if key[0] == 0xe7 && key[1] == 0x01 {
        judge(secp256k1_verify(point, message, signature))
    } else if key[0] == 0x80 && key[1] == 0x24 {
        judge(p256_verify(point, message, signature))
    } else {
        Err(SignatureError::UnknownKeyFormat)
    }
}

/// Why a commit was not accepted.
#[derive(Clone, Copy, Debug, PartialEq, Eq, Structural)]
pub enum CommitError {
    /// The unsigned commit cannot be encoded.
    NotEncodable,
    /// The signature was not accepted.
    Signature(SignatureError),
}

/// The outcome of checking a commit's signature: the unsigned commit is
/// encoded, and the signature is checked over those bytes.
pub open spec fn commit_signature_outcome(commit: SignedCommitView, key: Seq<u8>) -> Result<
    (),
    CommitError,
> {
    match dagcbor_encode(commit.unsigned().to_data()) {
        None => Err(CommitError::NotEncodable),
        Some(message) => match signature_outcome(message, commit.sig, key) {
            Ok(()) => Ok(()),
            Err(e) => Err(CommitError::Signature(e)),
        },
    }
}

/// Checks the signature of a commit with the public key in `key`.
pub fn verify_commit_signature(commit: &SignedCommitObject, key: &[u8]) -> (outcome: Result<
    (),
    CommitError,
>)
    ensures
        outcome == commit_signature_outcome(commit@, key@),
{
    let unsigned = commit.unsigned();
    let message = match unsigned.encode() {
        Some(message) => message,
        None => {
            return Err(CommitError::NotEncodable);
        },
    };
    match verify_signature(message.as_slice(), commit.sig(), key) {
        Ok(()) => Ok(()),
        Err(e) => Err(CommitError::Signature(e)),
    }
}

} // verus!
