//! Credential configuration and resolution.
//!
//! A configured location names where a credential comes from; the loader
//! (outside this crate) turns it into a raw [`Credential`], which the adapter
//! narrows to one of its three supported strategies: a static secret, a named
//! per-request lookup, or no credential at all.

use vstd::prelude::*;

use crate::bytes::bytes_eq;
use crate::error::{Error, ErrorDetails};
use vstd::string::StringSliceAdditionalSpecFns;

verus! {

/// A secret value.  It deliberately has no `Debug` form; read it through
/// [`SecretKey::expose_secret`].
#[derive(Clone, PartialEq, Eq)]
pub struct SecretKey {
    bytes: Vec<u8>,
}

impl View for SecretKey {
    type V = Seq<u8>;

    closed spec fn view(&self) -> Seq<u8> {
        self.bytes@
    }
}

impl SecretKey {
    pub fn new(bytes: Vec<u8>) -> (r: SecretKey)
        ensures
            r@ == bytes@,
    {
        SecretKey { bytes }
    }

    /// The secret itself, for attaching to an outgoing call.
    pub fn expose_secret(&self) -> (r: &Vec<u8>)
        ensures
            r@ == self@,
    {
        &self.bytes
    }

    /// A copy of the secret.
    pub fn duplicate(&self) -> (r: SecretKey)
        ensures
            r@ == self@,
    {
        let mut copy: Vec<u8> = Vec::new();
        crate::bytes::push_bytes(&mut copy, self.bytes.as_slice());
        SecretKey { bytes: copy }
    }
}

/// Where a credential is configured to come from.
#[derive(Debug, Clone, PartialEq, Eq)]
pub enum CredentialLocation {
    /// A named environment variable.
    Env(Vec<u8>),
    /// A named key in the caller-supplied per-request credential map.
    Dynamic(Vec<u8>),
    /// Explicitly no credential.
    Anonymous,
}

/// The default credential source for this backend: the `NVIDIA_API_KEY`
/// environment variable.
pub fn default_api_key_location() -> (r: CredentialLocation)
    ensures
        r matches CredentialLocation::Env(name) && name@ == "NVIDIA_API_KEY".spec_bytes(),
{
    let mut name: Vec<u8> = Vec::new();
    crate::jsonenc::push_lit(&mut name, "NVIDIA_API_KEY");
    CredentialLocation::Env(name)
}

/// A credential as the configuration loader hands it over, before the
/// adapter narrows it to its supported strategies.
#[derive(Clone)]
pub enum Credential {
    /// A secret taken directly from the configuration.
    Static(SecretKey),
    /// A secret read out of a configured file.
    FileContents(SecretKey),
    /// The name of a key to look up per request.
    Dynamic(Vec<u8>),
    /// Explicitly no credential.
    Anonymous,
    /// The configured location had nothing in it.
    Missing,
    /// A sealed secret reference, usable only by vault-aware backends; this
    /// adapter rejects it at construction.
    Sealed(SecretKey),
}

/// The three credential strategies this adapter supports.
#[derive(Clone)]
pub enum NvidiaNimCredentials {
    Static(SecretKey),
    Dynamic(Vec<u8>),
    Anonymous,
}

/// What narrowing a raw credential yields: the adapter keeps static secrets
/// (from configuration or file), keeps dynamic key names, treats an absent
/// credential as none, and rejects every other kind.
pub open spec fn narrowed_credentials(c: Credential) -> Option<NvidiaNimCredentials> {
    match c {
        Credential::Static(key) => Some(NvidiaNimCredentials::Static(key)),
        Credential::FileContents(key) => Some(NvidiaNimCredentials::Static(key)),
        Credential::Dynamic(name) => Some(NvidiaNimCredentials::Dynamic(name)),
        Credential::Anonymous => Some(NvidiaNimCredentials::Anonymous),
        Credential::Missing => Some(NvidiaNimCredentials::Anonymous),
        Credential::Sealed(_) => None,
    }
}

impl NvidiaNimCredentials {
    /// Narrows a raw credential to a supported strategy, rejecting any other
    /// kind with a configuration error.
    pub fn try_from_credential(credential: Credential) -> (r: Result<NvidiaNimCredentials, Error>)
        ensures
            match narrowed_credentials(credential) {
                Some(c) => r matches Ok(rc) && rc == c,
                None => r matches Err(e) && is_invalid_credential_error(e),
            },
    {
        match credential {
            Credential::Static(key) => Ok(NvidiaNimCredentials::Static(key)),
            Credential::FileContents(key) => Ok(NvidiaNimCredentials::Static(key)),
            Credential::Dynamic(name) => Ok(NvidiaNimCredentials::Dynamic(name)),
            Credential::Anonymous => Ok(NvidiaNimCredentials::Anonymous),
            Credential::Missing => Ok(NvidiaNimCredentials::Anonymous),
            Credential::Sealed(_) => {
                let mut message: Vec<u8> = Vec::new();
                crate::jsonenc::push_lit(
                    &mut message,
                    "Invalid api_key_location for NVIDIA NIM provider",
                );
                Err(Error::new(ErrorDetails::Config { message }))
            },
        }
    }
}

/// Whether two narrowed credentials hold the same strategy and value.
pub open spec fn creds_eqv(a: NvidiaNimCredentials, b: NvidiaNimCredentials) -> bool {
    match (a, b) {
        (NvidiaNimCredentials::Static(k1), NvidiaNimCredentials::Static(k2)) => k1@ == k2@,
        (NvidiaNimCredentials::Dynamic(n1), NvidiaNimCredentials::Dynamic(n2)) => n1@ == n2@,
        (NvidiaNimCredentials::Anonymous, NvidiaNimCredentials::Anonymous) => true,
        _ => false,
    }
}

/// The error produced when a dynamic key name is absent from the
/// caller-supplied map.
pub open spec fn is_api_key_missing_error(e: Error) -> bool {
    &&& e.details matches ErrorDetails::ApiKeyMissing { provider_name }
    &&& provider_name@ == "nvidia_nim".spec_bytes()
}

impl NvidiaNimCredentials {
    /// A copy holding the same strategy and value.
    pub fn duplicate(&self) -> (r: NvidiaNimCredentials)
        ensures
            creds_eqv(r, *self),
    {
        match self {
            NvidiaNimCredentials::Static(key) => NvidiaNimCredentials::Static(key.duplicate()),
            NvidiaNimCredentials::Dynamic(name) => {
                let mut copy: Vec<u8> = Vec::new();
                crate::bytes::push_bytes(&mut copy, name.as_slice());
                NvidiaNimCredentials::Dynamic(copy)
            },
            NvidiaNimCredentials::Anonymous => NvidiaNimCredentials::Anonymous,
        }
    }

    /// Resolves the key for one call: a static secret as stored; a dynamic
    /// name through the caller-supplied map, failing when the name is absent
    /// regardless of any cached default; no credential for anonymous access.
    pub fn get_api_key<'a>(&'a self, dynamic_api_keys: &'a InferenceCredentials) -> (r: Result<
        Option<&'a SecretKey>,
        Error,
    >)
        ensures
            match *self {
                NvidiaNimCredentials::Static(key) => r matches Ok(o) && o matches Some(k) && k@
                    == key@,
                NvidiaNimCredentials::Dynamic(name) => (match lookup_key(
                    dynamic_api_keys@,
                    name@,
                ) {
                    Some(v) => r matches Ok(o) && o matches Some(k) && k@ == v,
                    None => r matches Err(e) && is_api_key_missing_error(e),
                }),
                NvidiaNimCredentials::Anonymous => r matches Ok(o) && o is None,
            },
    {
        match self {
            NvidiaNimCredentials::Static(api_key) => Ok(Some(api_key)),
            NvidiaNimCredentials::Dynamic(key_name) => match dynamic_api_keys.get(key_name) {
                Some(api_key) => Ok(Some(api_key)),
                None => {
                    let mut provider_name: Vec<u8> = Vec::new();
                    crate::jsonenc::push_lit(&mut provider_name, "nvidia_nim");
                    Err(Error::new(ErrorDetails::ApiKeyMissing { provider_name }))
                },
            },
            NvidiaNimCredentials::Anonymous => Ok(None),
        }
    }
}

/// The configuration error produced for an unsupported credential kind.
pub open spec fn is_invalid_credential_error(e: Error) -> bool {
    &&& e.details matches ErrorDetails::Config { message }
    &&& message@ == "Invalid api_key_location for NVIDIA NIM provider".spec_bytes()
}

/// The caller-supplied per-request credential map, consulted for dynamic
/// resolution.  Later insertions shadow earlier ones.
pub struct InferenceCredentials {
    entries: Vec<(Vec<u8>, SecretKey)>,
}

/// First-match lookup over the entry sequence.
pub open spec fn lookup_key(entries: Seq<(Seq<u8>, Seq<u8>)>, name: Seq<u8>) -> Option<Seq<u8>>
    decreases entries.len(),
{
    if entries.len() == 0 {
        None
    } else if entries.first().0 == name {
        Some(entries.first().1)
    } else {
        lookup_key(entries.drop_first(), name)
    }
}

impl View for InferenceCredentials {
    type V = Seq<(Seq<u8>, Seq<u8>)>;

    closed spec fn view(&self) -> Seq<(Seq<u8>, Seq<u8>)> {
        self.entries@.map_values(|e: (Vec<u8>, SecretKey)| (e.0@, e.1@))
    }
}

impl InferenceCredentials {
    pub fn new() -> (r: InferenceCredentials)
        ensures
            r@.len() == 0,
    {
        InferenceCredentials { entries: Vec::new() }
    }

    /// Adds a key; it shadows any earlier entry under the same name.
    pub fn insert(&mut self, name: Vec<u8>, key: SecretKey)
        ensures
            final(self)@ == old(self)@.insert(0, (name@, key@)),
            lookup_key(final(self)@, name@) == Some(key@),
            forall|other: Seq<u8>|
                other != name@ ==> lookup_key(final(self)@, other) == lookup_key(
                    old(self)@,
                    other,
                ),
    {
        self.entries.insert(0, (name, key));
        proof {
            assert(self@ =~= old(self)@.insert(0, (name@, key@)));
            assert(self@.drop_first() =~= old(self)@);
        }
    }

    /// Looks a name up, returning the first matching entry.
    pub fn get(&self, name: &Vec<u8>) -> (r: Option<&SecretKey>)
        ensures
            match r {
                Some(key) => lookup_key(self@, name@) == Some(key@),
                None => lookup_key(self@, name@) is None,
            },
    {
        let mut i: usize = 0;
        proof {
            assert(self@.skip(0) =~= self@);
        }
        while i < self.entries.len()
            invariant
                i <= self.entries@.len(),
                self@.len() == self.entries@.len(),
                lookup_key(self@.skip(i as int), name@) == lookup_key(self@, name@),
                forall|j: int| 0 <= j < i ==> self@[j].0 != name@,
            decreases self.entries@.len() - i,
        {
            proof {
                assert(self@.skip(i as int).first() == self@[i as int]);
                assert(self@.skip(i as int).drop_first() =~= self@.skip(i + 1));
            }
            if bytes_eq(&self.entries[i].0, name) {
                return Some(&self.entries[i].1);
            }
            i += 1;
        }
        proof {
            assert(self@.skip(self@.len() as int) =~= Seq::<(Seq<u8>, Seq<u8>)>::empty());
        }
        None
    }
}

/// The resolver shared by every adapter instance of one process.
///
/// The credential configured at the default location is resolved exactly once,
/// when this store is built at startup; every adapter built against the store
/// afterwards reads that one cached value and never mutates it.  This replaces
/// a process-wide initialize-once global with an explicit object.
pub struct CredentialStore {
    default_credentials: NvidiaNimCredentials,
}

impl CredentialStore {
    /// Builds the store from the credential found at the default location.
    pub fn new(default_credential: Credential) -> (r: Result<CredentialStore, Error>)
        ensures
            match narrowed_credentials(default_credential) {
                Some(c) => r matches Ok(s) && s.spec_default() == c,
                None => r matches Err(e) && is_invalid_credential_error(e),
            },
    {
        let default_credentials = NvidiaNimCredentials::try_from_credential(default_credential)?;
        Ok(CredentialStore { default_credentials })
    }

    /// The cached default credentials.
    pub closed spec fn spec_default(&self) -> NvidiaNimCredentials {
        self.default_credentials
    }

    pub fn default_credentials(&self) -> (r: &NvidiaNimCredentials)
        ensures
            r == &self.spec_default(),
    {
        &self.default_credentials
    }
}

/// Every adapter that shares a store and uses the default location observes
/// the one cached resolution, so any two of them hold identical credentials.
pub proof fn lemma_default_credentials_shared(
    store: CredentialStore,
    a: NvidiaNimCredentials,
    b: NvidiaNimCredentials,
)
    requires
        a == store.spec_default(),
        b == store.spec_default(),
    ensures
        a == b,
{
}

} // verus!
