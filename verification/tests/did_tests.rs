use atproto_verify::bytes::{bytes_equal, bytes_less};
use atproto_verify::did::{
    did_document_url, DidDocument, DidError, DidService, DidVerificationMethod,
};
use atproto_verify::text::{has_prefix, index_of_char, skip_chars, str_eq};
use atproto_verify::uri::RecordUri;

fn service(id: &str, kind: &str, endpoint: &str) -> DidService {
    DidService {
        id: id.to_string(),
        service_type: kind.to_string(),
        service_endpoint: endpoint.to_string(),
    }
}

fn method(id: &str, key: &str) -> DidVerificationMethod {
    DidVerificationMethod { id: id.to_string(), public_key_multibase: key.to_string() }
}

fn document(
    services: Option<Vec<DidService>>,
    methods: Option<Vec<DidVerificationMethod>>,
) -> DidDocument {
    DidDocument { id: "did:plc:abc".to_string(), service: services, verification_method: methods }
}

#[test]
fn data_server_is_the_first_service_of_the_right_id_and_type() {
    let doc = document(
        Some(vec![
            service("#other", "AtprotoPersonalDataServer", "https://a.example"),
            service("#atproto_pds", "SomethingElse", "https://b.example"),
            service("#atproto_pds", "AtprotoPersonalDataServer", "https://c.example"),
            service("#atproto_pds", "AtprotoPersonalDataServer", "https://d.example"),
        ]),
        None,
    );
    assert_eq!(doc.get_pds(), Ok("https://c.example"));
}

#[test]
fn document_without_data_server_says_why() {
    assert_eq!(document(None, None).get_pds(), Err(DidError::NoService));
    assert_eq!(document(Some(vec![]), None).get_pds(), Err(DidError::PdsNotFound));
    let doc = document(Some(vec![service("#atproto_pds", "Other", "https://b.example")]), None);
    assert_eq!(doc.get_pds(), Err(DidError::PdsNotFound));
}

#[test]
fn signing_key_is_the_first_method_named_after_the_identity() {
    let doc = document(
        None,
        Some(vec![
            method("did:plc:abc#other", "zOther"),
            method("did:plc:abcd#atproto", "zWrong"),
            method("did:plc:abc#atproto", "zRight"),
            method("did:plc:abc#atproto", "zLater"),
        ]),
    );
    assert_eq!(doc.get_signing_key(), Ok("zRight"));
}

#[test]
fn document_without_signing_key_says_why() {
    assert_eq!(document(None, None).get_signing_key(), Err(DidError::NoVerificationMethod));
    assert_eq!(document(None, Some(vec![])).get_signing_key(), Err(DidError::SigningKeyNotFound));
    let doc = document(None, Some(vec![method("#atproto", "zKey")]));
    assert_eq!(doc.get_signing_key(), Err(DidError::SigningKeyNotFound));
}

#[test]
fn document_address_depends_on_the_method() {
    assert_eq!(
        did_document_url("did:plc:ewvi7nxzyoun6zhxrhs64oiz"),
        Ok("https://plc.directory/did:plc:ewvi7nxzyoun6zhxrhs64oiz".to_string())
    );
    assert_eq!(
        did_document_url("did:web:example.com"),
        Ok("https://example.com/.well-known/did.json".to_string())
    );
    assert_eq!(did_document_url("did:plc:"), Ok("https://plc.directory/did:plc:".to_string()));
    assert_eq!(did_document_url("did:web:"), Ok("https:///.well-known/did.json".to_string()));
}

#[test]
fn did_of_another_method_or_too_short_is_invalid() {
    assert_eq!(did_document_url("did:key:z6Mk"), Err(DidError::InvalidDid));
    assert_eq!(did_document_url("did:plc"), Err(DidError::InvalidDid));
    assert_eq!(did_document_url(""), Err(DidError::InvalidDid));
    assert_eq!(did_document_url("DID:PLC:abc"), Err(DidError::InvalidDid));
}

#[test]
fn address_is_split_into_three_segments() {
    let parts = RecordUri::parse("at://did:plc:abc/app.bsky.feed.post/3k2y").unwrap();
    assert_eq!(
        parts,
        RecordUri {
            authority: "did:plc:abc".to_string(),
            collection: "app.bsky.feed.post".to_string(),
            rkey: "3k2y".to_string(),
        }
    );
}

#[test]
fn address_segments_may_be_empty() {
    let parts = RecordUri::parse("at:////").unwrap();
    assert_eq!((parts.authority.len(), parts.collection.len(), parts.rkey.len()), (0, 0, 0));
    let parts = RecordUri::parse("at://a//c").unwrap();
    assert_eq!(parts.authority, "a");
    assert_eq!(parts.collection, "");
    assert_eq!(parts.rkey, "c");
}

#[test]
fn address_with_non_ascii_segments_is_split_by_characters() {
    let parts = RecordUri::parse("at://dïd/cöllection/kéy").unwrap();
    assert_eq!(parts.authority, "dïd");
    assert_eq!(parts.collection, "cöllection");
    assert_eq!(parts.rkey, "kéy");
}

#[test]
fn address_of_another_shape_is_rejected() {
    for bad in [
        "",
        "at:/",
        "at://",
        "at://a",
        "at://a/b",
        "at://a/b/c/d",
        "at://a/b/c/",
        "http://a/b/c",
        "AT://a/b/c",
        " at://a/b/c",
    ] {
        assert!(RecordUri::parse(bad).is_none());
    }
}

#[test]
fn byte_strings_compare_in_lexicographic_order() {
    assert!(bytes_less(b"", b"a"));
    assert!(bytes_less(b"a", b"b"));
    assert!(bytes_less(b"a", b"aa"));
    assert!(bytes_less(b"ab", b"b"));
    assert!(bytes_less(&[0x7f], &[0x80]));
    assert!(!bytes_less(b"", b""));
    assert!(!bytes_less(b"a", b"a"));
    assert!(!bytes_less(b"b", b"a"));
    assert!(!bytes_less(b"aa", b"a"));
    assert!(bytes_equal(b"abc", b"abc"));
    assert!(bytes_equal(b"", b""));
    assert!(!bytes_equal(b"abc", b"abd"));
    assert!(!bytes_equal(b"abc", b"ab"));
}

#[test]
fn text_helpers_work_on_characters() {
    assert!(str_eq("abc", "abc"));
    assert!(!str_eq("abc", "abd"));
    assert!(has_prefix("at://x", "at://"));
    assert!(has_prefix("abc", ""));
    assert!(!has_prefix("at:/", "at://"));
    assert_eq!(index_of_char("a/b/c", '/', 0), 1);
    assert_eq!(index_of_char("a/b/c", '/', 2), 3);
    assert_eq!(index_of_char("a/b/c", '/', 4), 5);
    assert_eq!(index_of_char("é/b", '/', 0), 1);
    assert_eq!(skip_chars("héllo", 2), "llo");
    assert_eq!(skip_chars("abc", 3), "");
    assert_eq!(skip_chars("abc", 4), "");
    assert_eq!(index_of_char("abc", '/', 7), 3);
}
