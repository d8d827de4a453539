//! From a parsed invocation to what it does: print the documentation, or open
//! a client of one storage service with the resolved credential.
use vstd::prelude::*;
use crate::credential::{resolve, resolved, Credential};

verus! {

/// Why an invocation cannot run.
#[derive(PartialEq, Eq, Structural, Debug, Clone, Copy)]
pub enum ConfigError {
    /// No account was given and the environment sets no default.
    MissingAccount,
    /// The account that was given is empty.
    EmptyAccount,
}

/// The command family a parsed invocation selected, with what the family
/// itself takes.
#[derive(Debug, Clone, PartialEq, Eq)]
pub enum Family {
    Account,
    Container { container_name: String },
    Queues,
    Datalake,
    Tables,
    /// The hidden command that prints the documentation.
    Readme,
}

/// A parsed invocation.
#[derive(Debug, Clone, PartialEq, Eq)]
pub struct Invocation {
    pub account: String,
    pub secret: Option<String>,
    pub family: Family,
}

/// The client a family's operations run on.
#[derive(Debug, Clone, PartialEq, Eq)]
pub enum Service {
    /// The account's blob service.
    Blob,
    /// The blob service narrowed to one container.
    Container { name: String },
    Queue,
    DataLake,
    Table,
}

/// What an invocation does.
#[derive(Debug, Clone, PartialEq, Eq)]
pub enum Action {
    /// Render the documentation and print it; no client, no network.
    PrintReadme,
    /// Open `service` for `account` with `credential` and run the leaf operation on it.
    Call { service: Service, account: String, credential: Credential },
}

/// The value given on the command line, else the environment's default.
pub open spec fn chosen(flag: Option<String>, env_default: Option<String>) -> Option<String> {
    match flag {
        Some(v) => Some(v),
        None => env_default,
    }
}

fn choose_value(flag: Option<String>, env_default: Option<String>) -> (r: Option<String>)
    ensures
        r == chosen(flag, env_default),
{
    match flag {
        Some(v) => Some(v),
        None => env_default,
    }
}

pub open spec fn invocation_for(
    account_flag: Option<String>,
    account_env: Option<String>,
    secret_flag: Option<String>,
    secret_env: Option<String>,
    family: Family,
) -> Result<Invocation, ConfigError> {
    match chosen(account_flag, account_env) {
        None => Err(ConfigError::MissingAccount),
        Some(a) => if a@.len() == 0 {
            Err(ConfigError::EmptyAccount)
        } else {
            Ok(Invocation { account: a, secret: chosen(secret_flag, secret_env), family })
        },
    }
}

impl Invocation {
    /// Builds an invocation from the account and secret given on the command
    /// line or, failing those, by the environment. A missing or empty account
    /// is an error; a missing secret is not.
    pub fn new(
        account_flag: Option<String>,
        account_env: Option<String>,
        secret_flag: Option<String>,
        secret_env: Option<String>,
        family: Family,
    ) -> (r: Result<Invocation, ConfigError>)
        ensures
            r == invocation_for(account_flag, account_env, secret_flag, secret_env, family),
    {
        match choose_value(account_flag, account_env) {
            None => Err(ConfigError::MissingAccount),
            Some(a) => {
                if a.as_str().is_empty() {
                    Err(ConfigError::EmptyAccount)
                } else {
                    let secret = choose_value(secret_flag, secret_env);
                    Ok(Invocation { account: a, secret, family })
                }
            },
        }
    }
}

/// The action of an invocation. The credential is resolved for every family;
/// the documentation command drops it.
pub open spec fn planned(inv: Invocation) -> Action {
    let credential = resolved(inv.secret, inv.account);
    match inv.family {
        Family::Readme => Action::PrintReadme,
        Family::Account => Action::Call { service: Service::Blob, account: inv.account, credential },
        Family::Container { container_name } => Action::Call {
            service: Service::Container { name: container_name },
            account: inv.account,
            credential,
        },
        Family::Queues => Action::Call { service: Service::Queue, account: inv.account, credential },
        Family::Datalake => Action::Call {
            service: Service::DataLake,
            account: inv.account,
            credential,
        },
        Family::Tables => Action::Call { service: Service::Table, account: inv.account, credential },
    }
}

/// Decides what an invocation does.
pub fn plan(inv: Invocation) -> (r: Action)
    ensures
        r == planned(inv),
{
    let account = inv.account;
    let credential = resolve(inv.secret, account.clone());
    match inv.family {
        Family::Readme => Action::PrintReadme,
        Family::Account => Action::Call { service: Service::Blob, account, credential },
        Family::Container { container_name } => Action::Call {
            service: Service::Container { name: container_name },
            account,
            credential,
        },
        Family::Queues => Action::Call { service: Service::Queue, account, credential },
        Family::Datalake => Action::Call { service: Service::DataLake, account, credential },
        Family::Tables => Action::Call { service: Service::Table, account, credential },
    }
}

/// The documentation command carries neither the account nor the secret into
/// its action: two such invocations plan the same action whatever their
/// account and secret, so nothing printed can depend on them.
pub proof fn lemma_readme_ignores_credentials(a: Invocation, b: Invocation)
    requires
        a.family is Readme,
        b.family is Readme,
    ensures
        planned(a) == planned(b),
        planned(a) is PrintReadme,
{
}

/// Every family but the documentation command opens a client for the
/// invocation's account with the credential its secret selects; the container
/// family narrows it to the container named.
pub proof fn lemma_call_uses_resolved_credential(inv: Invocation)
    requires
        !(inv.family is Readme),
    ensures
        planned(inv) is Call,
        planned(inv)->Call_account == inv.account,
        planned(inv)->Call_credential == resolved(inv.secret, inv.account),
        inv.family is Container ==> planned(inv)->Call_service == (Service::Container {
            name: inv.family->Container_container_name,
        }),
{
}

} // verus!
