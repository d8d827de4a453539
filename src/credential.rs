//! Choosing how to authenticate: with the account's secret key when one is
//! given, otherwise through the ambient identity of the environment.
use vstd::prelude::*;

verus! {

/// The credential strategy of one invocation.
#[derive(Debug, Clone, PartialEq, Eq)]
pub enum Credential {
    /// The account's own secret key.
    KeyBased { account: String, secret: String },
    /// The identity the environment provides, acquired later by its provider.
    IdentityBased,
}

/// The strategy that a secret's presence selects.
pub open spec fn resolved(secret: Option<String>, account: String) -> Credential {
    match secret {
        Some(s) => Credential::KeyBased { account, secret: s },
        None => Credential::IdentityBased,
    }
}

/// Picks the credential strategy: key based exactly when a secret is present.
pub fn resolve(secret: Option<String>, account: String) -> (r: Credential)
    ensures
        r == resolved(secret, account),
{
    match secret {
        Some(s) => Credential::KeyBased { account, secret: s },
        None => Credential::IdentityBased,
    }
}

/// The two strategies are exclusive and cover every invocation: a present
/// secret gives the key-based one, bound to that account and secret, and an
/// absent one gives the identity-based one.
pub proof fn lemma_strategy_follows_secret(secret: Option<String>, account: String)
    ensures
        resolved(secret, account) is KeyBased <==> secret is Some,
        resolved(secret, account) is IdentityBased <==> secret is None,
        !(resolved(secret, account) is KeyBased && resolved(secret, account) is IdentityBased),
        secret is Some ==> resolved(secret, account) == (Credential::KeyBased {
            account,
            secret: secret->Some_0,
        }),
{
}

impl Credential {
    /// Whether the strategy uses a secret key.
    pub fn is_key_based(&self) -> (r: bool)
        ensures
            r == (*self is KeyBased),
    {
        match self {
            Credential::KeyBased { .. } => true,
            Credential::IdentityBased => false,
        }
    }
}

} // verus!
