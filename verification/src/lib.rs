//! Verification of a single record against a signed, content-addressed
//! repository: canonical encoding, content hashes, Merkle Search Tree
//! inclusion and the commit signature.

pub mod bytes;
pub mod cid;
pub mod codec;
pub mod commit;
pub mod did;
pub mod digest;
pub mod index;
pub mod mst;
pub mod mst_laws;
pub mod node;
pub mod pipeline;
pub mod pipeline_laws;
pub mod store;
pub mod text;
pub mod transcode;
pub mod transcode_laws;
pub mod tree;
pub mod uri;
pub mod value;
