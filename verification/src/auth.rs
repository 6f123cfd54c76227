//! Who is calling.
use vstd::prelude::*;

verus! {

/// An authenticated user, with the client and key of the session, if it has
/// them.
#[derive(Debug, Clone)]
pub struct Claims {
    pub did: String,
    pub client_key: Option<String>,
    pub dpop_key_id: Option<String>,
}

impl Claims {
    /// The claims of a call that this service makes for a user itself.
    pub fn internal(did: String) -> (claims: Claims)
        ensures
            claims.did == did,
            claims.client_key is None,
            claims.dpop_key_id is None,
    {
        Claims { did, client_key: None, dpop_key_id: None }
    }

    /// The user's DID.
    pub fn did(&self) -> (did: &str)
        ensures
            did@ == self.did@,
    {
        self.did.as_str()
    }

    /// The client that the session belongs to.
    pub fn client_key(&self) -> (key: Option<&str>)
        ensures
            crate::text::opt_str(key) == crate::text::opt_text(self.client_key),
    {
        match &self.client_key {
            Some(key) => Some(key.as_str()),
            None => None,
        }
    }

    /// The key that the session is bound to.
    pub fn dpop_key_id(&self) -> (id: Option<&str>)
        ensures
            crate::text::opt_str(id) == crate::text::opt_text(self.dpop_key_id),
    {
        match &self.dpop_key_id {
            Some(id) => Some(id.as_str()),
            None => None,
        }
    }
}

/// A service that authenticated itself.
#[derive(Debug)]
pub struct ServiceAuth {
    pub did: String,
}

/// All that a request authenticates with.
#[derive(Debug)]
pub struct XrpcClaims {
    pub identity: Option<Claims>,
    pub service_auth: Option<ServiceAuth>,
    pub space_credential: Option<String>,
}

} // verus!
