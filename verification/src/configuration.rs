//! The client configuration: where the service and its identity provider
//! are, and the credentials of each tenant.

use vstd::prelude::*;
use crate::model::Configuration;
use crate::text_map::TextMap;
use crate::token::TokenError;

verus! {

/// A tenant of the service and its client credentials.
#[derive(Debug)]
pub struct Tenant {
    pub client_id: String,
    pub client_secret: Option<String>,
    pub page_size: Option<u32>,
}

/// The base path of the service, the URL of the identity provider and the
/// tenants by name.
#[derive(Debug)]
pub struct ClientConfiguration {
    pub base_path: String,
    pub identity_provider_url: String,
    pub tenants: TextMap<Tenant>,
}

/// The configuration for calls to the service: the base path of the client
/// configuration and the token obtained for the tenant, or the error met
/// while obtaining it.
pub fn from_client_configuration(
    configuration: &ClientConfiguration,
    token: Result<String, TokenError>,
) -> (r: Result<Configuration, TokenError>)
    ensures
        match token {
            Ok(t) => r matches Ok(c) && c.base_url@ == configuration.base_path@ && c.access_token
                == t,
            Err(e) => r == Err::<Configuration, TokenError>(e),
        },
{
    match token {
        Ok(token) => Ok(
            Configuration { base_url: configuration.base_path.clone(), access_token: token },
        ),
        Err(e) => Err(e),
    }
}

} // verus!
