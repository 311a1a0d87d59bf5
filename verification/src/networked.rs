//! The settings of the networked backend of the cache: where to connect,
//! and how to retry.
//!
//! The backend opens a fresh connection for every operation, so there is no
//! connection to keep here. Connecting is left to the caller.

use vstd::prelude::*;
use crate::error::ErrorKind;
use crate::retry::RetryPolicy;

verus! {

#[verifier::external_type_specification]
#[verifier::external_body]
pub struct ExConfig(::postgres::Config);

#[verifier::external_type_specification]
#[verifier::external_body]
pub struct ExError(::postgres::Error);

/// Calls `postgres::Config`'s `FromStr::from_str`, which parses a
/// connection string given as key-value pairs or as a URL. Nothing is
/// claimed of the outcome: which hosts are accepted differs between
/// platforms.
#[verifier::external_body]
fn parse_params(params: &str) -> (r: Result<::postgres::Config, ::postgres::Error>) {
    params.parse::<::postgres::Config>()
}

/// The networked backend, before any connection is made.
pub struct Postgres {
    params: ::postgres::Config,
    policy: RetryPolicy,
}

impl Postgres {
    /// The parameters of every connection.
    pub closed spec fn spec_params(&self) -> ::postgres::Config {
        self.params
    }

    /// The policy that every operation is retried by.
    pub closed spec fn spec_policy(&self) -> RetryPolicy {
        self.policy
    }

    /// Settles what parsing the connection string gave: parameters make a
    /// backend, a parse error is an initialization error.
    pub fn settle(
        parsed: Result<::postgres::Config, ::postgres::Error>,
        policy: RetryPolicy,
    ) -> (r: Result<Postgres, ErrorKind>)
        ensures
            match parsed {
                Ok(params) => r matches Ok(backend) && backend.spec_params() == params
                    && backend.spec_policy() == policy,
                Err(_) => r matches Err(kind) && kind == ErrorKind::Initialization,
            },
    {
        match parsed {
            Ok(params) => Ok(Postgres { params, policy }),
            Err(_) => Err(ErrorKind::Initialization),
        }
    }

    /// A backend for the given connection string. A string that does not
    /// parse is an initialization error.
    pub fn new(params: &str, policy: RetryPolicy) -> (r: Result<Postgres, ErrorKind>)
        ensures
            match r {
                Ok(backend) => backend.spec_policy() == policy,
                Err(kind) => kind == ErrorKind::Initialization,
            },
    {
        Postgres::settle(parse_params(params), policy)
    }

    pub fn params(&self) -> (params: &::postgres::Config)
        ensures
            *params == self.spec_params(),
    {
        &self.params
    }

    pub fn policy(&self) -> (policy: RetryPolicy)
        ensures
            policy == self.spec_policy(),
    {
        self.policy
    }
}

} // verus!
