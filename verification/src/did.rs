//! DID documents: what the verifier reads from them.

use crate::text::{has_prefix, skip_chars, starts_with, str_eq};
use vstd::prelude::*;
use vstd::string::*;

verus! {

/// What a verification method says.
pub struct MethodView {
    pub id: Seq<char>,
    pub public_key_multibase: Seq<char>,
}

/// What a service descriptor says.
pub struct ServiceView {
    pub id: Seq<char>,
    pub service_type: Seq<char>,
    pub service_endpoint: Seq<char>,
}

/// What a DID document says.
pub struct DidDocumentView {
    pub id: Seq<char>,
    pub service: Option<Seq<ServiceView>>,
    pub verification_method: Option<Seq<MethodView>>,
}

/// A verification method of a DID document.
#[derive(Debug)]
pub struct DidVerificationMethod {
    pub id: String,
    pub public_key_multibase: String,
}

/// A service descriptor of a DID document.
#[derive(Debug)]
pub struct DidService {
    pub id: String,
    pub service_type: String,
    pub service_endpoint: String,
}

/// A DID document.
#[derive(Debug)]
pub struct DidDocument {
    pub id: String,
    pub service: Option<Vec<DidService>>,
    pub verification_method: Option<Vec<DidVerificationMethod>>,
}

impl View for DidVerificationMethod {
    type V = MethodView;

    open spec fn view(&self) -> MethodView {
        MethodView { id: self.id@, public_key_multibase: self.public_key_multibase@ }
    }
}

impl View for DidService {
    type V = ServiceView;

    open spec fn view(&self) -> ServiceView {
        ServiceView {
            id: self.id@,
            service_type: self.service_type@,
            service_endpoint: self.service_endpoint@,
        }
    }
}

impl View for DidDocument {
    type V = DidDocumentView;

    open spec fn view(&self) -> DidDocumentView {
        DidDocumentView {
            id: self.id@,
            service: match self.service {
                Some(services) => Some(Seq::new(services@.len(), |i: int| services@[i]@)),
                None => None,
            },
            verification_method: match self.verification_method {
                Some(methods) => Some(Seq::new(methods@.len(), |i: int| methods@[i]@)),
                None => None,
            },
        }
    }
}

/// Why a DID document or a DID did not give what was asked of it.
#[derive(Clone, Copy, Debug, PartialEq, Eq, Structural)]
pub enum DidError {
    /// The document lists no services.
    NoService,
    /// No service is the personal data server.
    PdsNotFound,
    /// The document lists no verification methods.
    NoVerificationMethod,
    /// No verification method is the signing key.
    SigningKeyNotFound,
    /// The DID is of no supported method.
    InvalidDid,
}

/// Whether a service is the personal data server.
pub open spec fn is_pds(service: ServiceView) -> bool {
    service.id == "#atproto_pds"@ && service.service_type == "AtprotoPersonalDataServer"@
}

/// The endpoint of the first personal data server among the services from
/// index `from` on.
pub open spec fn first_pds(services: Seq<ServiceView>, from: int) -> Option<Seq<char>>
    decreases services.len() - from,
{
    if from < 0 || from >= services.len() {
        None
    } else if is_pds(services[from]) {
        Some(services[from].service_endpoint)
    } else {
        first_pds(services, from + 1)
    }
}

/// The id of the signing key of the identity `did`.
pub open spec fn signing_key_id(did: Seq<char>) -> Seq<char> {
    did + "#atproto"@
}

/// The key of the first verification method with the id `id` among the
/// methods from index `from` on.
pub open spec fn first_key(methods: Seq<MethodView>, id: Seq<char>, from: int) -> Option<
    Seq<char>,
>
    decreases methods.len() - from,
{
    if from < 0 || from >= methods.len() {
        None
    } else if methods[from].id == id {
        Some(methods[from].public_key_multibase)
    } else {
        first_key(methods, id, from + 1)
    }
}

impl DidDocumentView {
    /// The endpoint of the personal data server.
    pub open spec fn pds(self) -> Result<Seq<char>, DidError> {
        match self.service {
            None => Err(DidError::NoService),
            Some(services) => match first_pds(services, 0) {
                Some(endpoint) => Ok(endpoint),
                None => Err(DidError::PdsNotFound),
            },
        }
    }

    /// The multibase text of the signing key.
    pub open spec fn signing_key(self) -> Result<Seq<char>, DidError> {
        match self.verification_method {
            None => Err(DidError::NoVerificationMethod),
            Some(methods) => match first_key(methods, signing_key_id(self.id), 0) {
                Some(key) => Ok(key),
                None => Err(DidError::SigningKeyNotFound),
            },
        }
    }
}

impl DidDocument {
    /// The endpoint of the identity's personal data server: that of the
    /// first service with the id `#atproto_pds` and the type
    /// `AtprotoPersonalDataServer`.
    pub fn get_pds(&self) -> (endpoint: Result<&str, DidError>)
        ensures
            match self@.pds() {
                Ok(expected) => endpoint matches Ok(got) && got@ == expected,
                Err(e) => endpoint matches Err(got) && got == e,
            },
    {
        let services = match &self.service {
            Some(services) => services,
            None => {
                return Err(DidError::NoService);
            },
        };
        let ghost views = self@.service->Some_0;
        let mut i: usize = 0;
        while i < services.len()
            invariant
                0 <= i <= services@.len(),
                self@.service == Some(views),
                views.len() == services@.len(),
                forall|j: int| 0 <= j < services@.len() ==> views[j] == services@[j]@,
                first_pds(views, 0) == first_pds(views, i as int),
            decreases services@.len() - i,
        {
            let service = &services[i];
            if str_eq(service.id.as_str(), "#atproto_pds") && str_eq(
                service.service_type.as_str(),
                "AtprotoPersonalDataServer",
            ) {
                return Ok(service.service_endpoint.as_str());
            }
            i = i + 1;
        }
        Err(DidError::PdsNotFound)
    }

    /// The multibase text of the identity's signing key: that of the first
    /// verification method whose id is the document's id followed by
    /// `#atproto`.
    pub fn get_signing_key(&self) -> (key: Result<&str, DidError>)
        ensures
            match self@.signing_key() {
                Ok(expected) => key matches Ok(got) && got@ == expected,
                Err(e) => key matches Err(got) && got == e,
            },
    {
        let methods = match &self.verification_method {
            Some(methods) => methods,
            None => {
                return Err(DidError::NoVerificationMethod);
            },
        };
        let mut wanted = self.id.clone();
        wanted.append("#atproto");
        let ghost views = self@.verification_method->Some_0;
        let mut i: usize = 0;
        while i < methods.len()
            invariant
                0 <= i <= methods@.len(),
                self@.verification_method == Some(views),
                self@.id == self.id@,
                views.len() == methods@.len(),
                forall|j: int| 0 <= j < methods@.len() ==> views[j] == methods@[j]@,
                wanted@ == signing_key_id(self.id@),
                first_key(views, wanted@, 0) == first_key(views, wanted@, i as int),
            decreases methods@.len() - i,
        {
            let method = &methods[i];
            if method.id == wanted {
                return Ok(method.public_key_multibase.as_str());
            }
            i = i + 1;
        }
        Err(DidError::SigningKeyNotFound)
    }
}

/// Where the document of a DID is published: for `did:plc:` the directory,
/// for `did:web:` the well-known path of the host that the DID names.
pub open spec fn did_document_location(did: Seq<char>) -> Result<Seq<char>, DidError> {
    if starts_with(did, "did:plc:"@) {
        Ok("https://plc.directory/"@ + did)
    } else if starts_with(did, "did:web:"@) {
        Ok("https://"@ + did.skip(8) + "/.well-known/did.json"@)
    } else {
        Err(DidError::InvalidDid)
    }
}

/// The address from which the document of `did` is fetched.
pub fn did_document_url(did: &str) -> (url: Result<String, DidError>)
    ensures
        match did_document_location(did@) {
            Ok(expected) => url matches Ok(got) && got@ == expected,
            Err(e) => url matches Err(got) && got == e,
        },
{
    proof {
        reveal_strlit("did:plc:");
        reveal_strlit("did:web:");
    }
    if has_prefix(did, "did:plc:") {
        let mut url = String::from_str("https://plc.directory/");
        url.append(did);
        Ok(url)
    } else if has_prefix(did, "did:web:") {
        let mut url = String::from_str("https://");
        url.append(skip_chars(did, 8));
        url.append("/.well-known/did.json");
        Ok(url)
    } else {
        Err(DidError::InvalidDid)
    }
}

} // verus!
