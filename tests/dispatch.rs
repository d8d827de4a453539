use azure_storage_cli::credential::{resolve, Credential};
use azure_storage_cli::dispatch::{plan, Action, ConfigError, Family, Invocation, Service};
use azure_storage_cli::polish::{readme, ReadmeNames};
use azure_storage_cli::tree::CommandNode;

fn s(v: &str) -> Option<String> {
    Some(v.to_string())
}

#[test]
fn resolve_with_secret_is_key_based() {
    let c = resolve(s("k"), "acct1".to_string());
    assert_eq!(c, Credential::KeyBased { account: "acct1".to_string(), secret: "k".to_string() });
    assert!(c.is_key_based());
}

#[test]
fn resolve_without_secret_is_identity_based() {
    let c = resolve(None, "acct1".to_string());
    assert_eq!(c, Credential::IdentityBased);
    assert!(!c.is_key_based());
}

#[test]
fn flag_wins_over_environment() {
    let inv = Invocation::new(s("flag"), s("env"), None, s("envkey"), Family::Queues).unwrap();
    assert_eq!(inv.account, "flag");
    assert_eq!(inv.secret, s("envkey"));
    let inv = Invocation::new(None, s("env"), s("k"), s("envkey"), Family::Tables).unwrap();
    assert_eq!(inv.account, "env");
    assert_eq!(inv.secret, s("k"));
}

#[test]
fn container_with_secret_scenario() {
    let fam = Family::Container { container_name: "c1".to_string() };
    let inv = Invocation::new(s("acct1"), None, s("secret"), None, fam).unwrap();
    let action = plan(inv);
    assert_eq!(
        action,
        Action::Call {
            service: Service::Container { name: "c1".to_string() },
            account: "acct1".to_string(),
            credential: Credential::KeyBased { account: "acct1".to_string(), secret: "secret".to_string() },
        }
    );
}

#[test]
fn readme_without_secret_scenario() {
    let inv = Invocation::new(s("acct1"), None, None, None, Family::Readme).unwrap();
    assert_eq!(resolve(inv.secret.clone(), inv.account.clone()), Credential::IdentityBased);
    assert_eq!(plan(inv), Action::PrintReadme);
    let root = CommandNode::leaf("azure-storage-cli".to_string(), "Usage: azure-storage-cli".to_string());
    let names = ReadmeNames {
        binary: "azure-storage-cli".to_string(),
        alias: "azs".to_string(),
        suffixed_alias: "azs.exe".to_string(),
        title: "Azure Storage CLI".to_string(),
        description: "Storage from the command line".to_string(),
    };
    let doc = readme(&root, &names);
    assert!(!doc.is_empty());
    assert!(doc.starts_with("# Azure Storage CLI\n\nStorage from the command line\n"));
}

#[test]
fn missing_account_scenario() {
    let r = Invocation::new(None, None, s("k"), None, Family::Account);
    assert_eq!(r.unwrap_err(), ConfigError::MissingAccount);
}

#[test]
fn empty_account_is_rejected() {
    let r = Invocation::new(s(""), s("env"), None, None, Family::Account);
    assert_eq!(r.unwrap_err(), ConfigError::EmptyAccount);
}

#[test]
fn each_family_opens_its_service() {
    let cases = vec![
        (Family::Account, Service::Blob),
        (Family::Queues, Service::Queue),
        (Family::Datalake, Service::DataLake),
        (Family::Tables, Service::Table),
    ];
    for (fam, svc) in cases {
        let inv = Invocation::new(s("a"), None, None, None, fam).unwrap();
        assert_eq!(
            plan(inv),
            Action::Call { service: svc, account: "a".to_string(), credential: Credential::IdentityBased }
        );
    }
}

#[test]
fn readme_never_shows_the_secret() {
    let inv = Invocation::new(s("acct1"), None, s("s3cr3t-value"), None, Family::Readme).unwrap();
    assert_eq!(plan(inv), Action::PrintReadme);
    let root = CommandNode {
        name: "azure-storage-cli".to_string(),
        positionals: vec![],
        usage: "--access-key <ACCESS_KEY>".to_string(),
        hidden: false,
        children: vec![CommandNode::leaf("account".to_string(), "u".to_string())],
    };
    let names = ReadmeNames {
        binary: "azure-storage-cli".to_string(),
        alias: "azs".to_string(),
        suffixed_alias: "azs.exe".to_string(),
        title: "T".to_string(),
        description: "D".to_string(),
    };
    let doc = readme(&root, &names);
    assert!(!doc.contains("s3cr3t-value"));
    assert!(!doc.contains("acct1"));
}
