//! Content identifiers.

use crate::bytes::bytes_equal;
use crate::digest::{sha256, sha256_digest};
use std::str::FromStr;
use vstd::prelude::*;

verus! {

/// Multihash code of SHA-256.
pub const SHA2_256: u64 = 0x12;

/// Length in bytes of a SHA-256 digest.
pub const SHA2_256_LEN: usize = 32;

/// Multicodec code of DAG-PB, the only codec of a version 0 identifier.
pub const DAG_PB: u64 = 0x70;

/// Largest digest that an identifier can carry, in bytes.
pub const MAX_DIGEST_LEN: usize = 64;

/// What a content identifier says: its version, the codec of the block it
/// names, the code of the hash function and the digest.
pub struct CidView {
    pub version: u64,
    pub codec: u64,
    pub hash_code: u64,
    pub digest: Seq<u8>,
}

impl CidView {
    /// The shapes that an identifier can take: version 0 or 1, a digest of
    /// at most 64 bytes, and for version 0 a SHA-256 digest of a DAG-PB block.
    pub open spec fn valid(self) -> bool {
        &&& self.version == 0 || self.version == 1
        &&& self.digest.len() <= MAX_DIGEST_LEN
        &&& self.version == 0 ==> self.codec == DAG_PB && self.hash_code == SHA2_256
            && self.digest.len() == SHA2_256_LEN
    }

    /// Whether the identifier carries a SHA-256 digest of 32 bytes, the only
    /// kind that is trusted.
    pub open spec fn is_sha256(self) -> bool {
        self.hash_code == SHA2_256 && self.digest.len() == SHA2_256_LEN
    }

    /// Whether the identifier names exactly the bytes `content`.
    pub open spec fn names(self, content: Seq<u8>) -> bool {
        self.is_sha256() && self.digest == sha256(content)
    }

    /// A number under which the identifier is filed: the first four bytes
    /// of the digest, read as one number; 0 for a shorter digest.
    pub open spec fn fingerprint(self) -> u64 {
        if self.digest.len() >= 4 {
            (self.digest[0] + 256 * self.digest[1] + 65536 * self.digest[2] + 16777216
                * self.digest[3]) as u64
        } else {
            0
        }
    }
}

/// A content identifier.
#[derive(Debug, PartialEq, Eq)]
pub struct Cid {
    version: u64,
    codec: u64,
    hash_code: u64,
    digest: Vec<u8>,
}

impl View for Cid {
    type V = CidView;

    closed spec fn view(&self) -> CidView {
        CidView {
            version: self.version,
            codec: self.codec,
            hash_code: self.hash_code,
            digest: self.digest@,
        }
    }
}

/// Why a content hash check failed.
#[derive(Clone, Copy, Debug, PartialEq, Eq, Structural)]
pub enum HashError {
    /// The identifier does not carry a 32-byte SHA-256 digest.
    UnsupportedCid,
    /// The digest of the bytes differs from the identifier's digest.
    Mismatch,
}

impl Cid {
    #[verifier::type_invariant]
    spec fn inv(&self) -> bool {
        self@.valid()
    }

    /// Builds an identifier from its parts, if they form a valid one.
    pub fn new(version: u64, codec: u64, hash_code: u64, digest: Vec<u8>) -> (cid: Option<Cid>)
        ensures
            cid is Some <==> (CidView { version, codec, hash_code, digest: digest@ }).valid(),
            cid matches Some(c) ==> c@ == (CidView { version, codec, hash_code, digest: digest@ }),
    {
        if version > 1 || digest.len() > MAX_DIGEST_LEN {
            return None;
        }
        if version == 0 && (codec != DAG_PB || hash_code != SHA2_256 || digest.len()
            != SHA2_256_LEN) {
            return None;
        }
        Some(Cid { version, codec, hash_code, digest })
    }

    /// The version of the identifier, 0 or 1.
    pub fn version(&self) -> (v: u64)
        ensures
            v == self@.version,
    {
        self.version
    }

    /// The codec of the block that the identifier names.
    pub fn codec(&self) -> (c: u64)
        ensures
            c == self@.codec,
    {
        self.codec
    }

    /// The code of the hash function.
    pub fn hash_code(&self) -> (c: u64)
        ensures
            c == self@.hash_code,
    {
        self.hash_code
    }

    /// The digest.
    pub fn digest(&self) -> (d: &[u8])
        ensures
            d@ == self@.digest,
    {
        self.digest.as_slice()
    }

    /// Whether two identifiers are the same.
    pub fn equals(&self, other: &Cid) -> (same: bool)
        ensures
            same == (self@ == other@),
    {
        self.version == other.version && self.codec == other.codec && self.hash_code
            == other.hash_code && bytes_equal(self.digest.as_slice(), other.digest.as_slice())
    }

    /// The number under which the identifier is filed.
    pub fn fingerprint(&self) -> (number: u64)
        ensures
            number == self@.fingerprint(),
    {
        if self.digest.len() >= 4 {
            let a: u64 = self.digest[0] as u64;
            let b: u64 = self.digest[1] as u64;
            let c: u64 = self.digest[2] as u64;
            let d: u64 = self.digest[3] as u64;
            a + 256 * b + 65536 * c + 16777216 * d
        } else {
            0
        }
    }

    /// Whether the identifier carries a 32-byte SHA-256 digest.
    pub fn is_sha256(&self) -> (ok: bool)
        ensures
            ok == self@.is_sha256(),
    {
        self.hash_code == SHA2_256 && self.digest.len() == SHA2_256_LEN
    }
}

impl Clone for Cid {
    fn clone(&self) -> (copy: Cid)
        ensures
            copy@ == self@,
    {
        proof {
            use_type_invariant(self);
        }
        Cid {
            version: self.version,
            codec: self.codec,
            hash_code: self.hash_code,
            digest: self.digest.clone(),
        }
    }
}

/// Checks that `cid` names exactly `content`: the identifier must carry a
/// 32-byte SHA-256 digest, and that digest must be the hash of the bytes.
pub fn verify_content_hash(content: &[u8], cid: &Cid) -> (checked: Result<(), HashError>)
    ensures
        checked is Ok <==> cid@.names(content@),
        checked == Err::<(), HashError>(HashError::UnsupportedCid) <==> !cid@.is_sha256(),
        checked == Err::<(), HashError>(HashError::Mismatch) <==> cid@.is_sha256() && cid@.digest
            != sha256(content@),
{
    if !cid.is_sha256() {
        return Err(HashError::UnsupportedCid);
    }
    let computed: [u8; 32] = sha256_digest(content);
    if !bytes_equal(cid.digest(), computed.as_slice()) {
        return Err(HashError::Mismatch);
    }
    Ok(())
}

/// The identifier that a text form denotes, as `cid::Cid::from_str` reads
/// it; `None` where that function reports an error.
pub uninterp spec fn cid_of_text(text: Seq<char>) -> Option<CidView>;

/// Calls `cid::Cid::from_str` and copies out the version, codec, hash code
/// and digest. The outcome depends on the text alone. The outside
/// constructors admit only version 0 and 1, a digest of at most 64 bytes,
/// and for version 0 only a DAG-PB SHA-256 identifier.
#[verifier::external_body]
pub(crate) fn cid_from_text(text: &str) -> (cid: Option<Cid>)
    ensures
        cid is Some <==> cid_of_text(text@) is Some,
        cid matches Some(c) ==> cid_of_text(text@) == Some(c@),
{
    match cid::Cid::from_str(text) {
        Ok(c) => Some(
            Cid {
                version: c.version().into(),
                codec: c.codec(),
                hash_code: c.hash().code(),
                digest: c.hash().digest().to_vec(),
            },
        ),
        Err(_) => None,
    }
}

/// The identifier that a binary form denotes, as `cid::Cid::try_from` reads
/// it from a byte slice; `None` where that function reports an error.
pub uninterp spec fn cid_of_bytes(bytes: Seq<u8>) -> Option<CidView>;

/// Calls `cid::Cid::try_from` on the bytes and copies out the version,
/// codec, hash code and digest. The outcome depends on the bytes alone, and
/// the parts are those of a valid identifier, as for the text form.
#[verifier::external_body]
pub(crate) fn cid_from_bytes(bytes: &[u8]) -> (cid: Option<Cid>)
    ensures
        cid is Some <==> cid_of_bytes(bytes@) is Some,
        cid matches Some(c) ==> cid_of_bytes(bytes@) == Some(c@),
{
    match cid::Cid::try_from(bytes) {
        Ok(c) => Some(
            Cid {
                version: c.version().into(),
                codec: c.codec(),
                hash_code: c.hash().code(),
                digest: c.hash().digest().to_vec(),
            },
        ),
        Err(_) => None,
    }
}

/// Reads an identifier from its binary form.
pub fn parse_cid_bytes(bytes: &[u8]) -> (cid: Option<Cid>)
    ensures
        cid is Some <==> cid_of_bytes(bytes@) is Some,
        cid matches Some(c) ==> cid_of_bytes(bytes@) == Some(c@),
{
    cid_from_bytes(bytes)
}

/// Reads an identifier from its text form.
pub fn parse_cid(text: &str) -> (cid: Option<Cid>)
    ensures
        cid is Some <==> cid_of_text(text@) is Some,
        cid matches Some(c) ==> cid_of_text(text@) == Some(c@),
{
    cid_from_text(text)
}

} // verus!
