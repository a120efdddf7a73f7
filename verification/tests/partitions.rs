use sheesy_vault::error::{first_cause_of_type, Fail, FailKind, VaultError};
use sheesy_vault::notice::Notice;
use sheesy_vault::partitions::{may_write, WritePlan};
use sheesy_vault::vault::{Vault, VaultKind, WriteMode};

fn leader() -> Vault {
    Vault {
        name: None,
        kind: VaultKind::Leader,
        index: 0,
        partitions: Vec::new(),
        vault_path: Some(String::from("sy-vault.yml")),
        secrets_dir: String::from("."),
        gpg_keys_dir: Some(String::from(".gpg-keys")),
        recipients_file: String::from(".gpg-id"),
    }
}

fn partition(index: usize, name: Option<&str>, secrets_dir: &str) -> Vault {
    Vault {
        name: name.map(String::from),
        kind: VaultKind::Partition,
        index,
        partitions: Vec::new(),
        vault_path: Some(String::from("sy-vault.yml")),
        secrets_dir: String::from(secrets_dir),
        gpg_keys_dir: None,
        recipients_file: format!("{}/.gpg-id", secrets_dir),
    }
}

fn indices(vault: &Vault) -> Vec<usize> {
    let mut all = vec![vault.index];
    all.extend(vault.partitions.iter().map(|p| p.index));
    all
}

fn assert_distinct(all: &[usize]) {
    for i in 0..all.len() {
        for j in (i + 1)..all.len() {
            assert_ne!(all[i], all[j], "indices {:?}", all);
        }
    }
}

#[test]
fn add_partition_by_name_then_remove_by_path() {
    let mut vault = leader();
    let notice = vault.add_partition("secrets-b", Some("b")).unwrap();
    assert_eq!(
        notice,
        Notice::AddedPartition {
            name: Some(String::from("b")),
            secrets_dir: String::from("secrets-b")
        }
    );
    assert_eq!(vault.partitions.len(), 1);
    assert_eq!(vault.partitions[0], partition(1, Some("b"), "secrets-b"));

    let removed = vault.remove_partition("secrets-b").unwrap();
    assert_eq!(removed, Notice::RemovedPartition { selector: String::from("secrets-b") });
    assert!(vault.partitions.is_empty());
    assert_eq!(vault, leader());

    let again = vault.remove_partition("secrets-b").unwrap_err();
    assert!(again.contexts.is_empty());
    assert_eq!(again.root, Fail::NoMatchingPartition { selector: String::from("secrets-b") });
    assert_eq!(first_cause_of_type(&again, FailKind::NoMatchingPartition), Some(0));
    assert_eq!(vault, leader());
}

#[test]
fn ambiguous_selector_names_both_and_changes_nothing() {
    let mut vault = leader();
    vault.add_partition("a", Some("x")).unwrap();
    vault.add_partition("b", Some("x")).unwrap();
    assert_eq!(vault.partitions[0], partition(1, Some("x"), "a"));
    assert_eq!(vault.partitions[1], partition(2, Some("x"), "b"));
    vault.add_partition("c", None).unwrap();
    let snapshot = indices(&vault);

    let e = vault.remove_partition("x").unwrap_err();
    assert!(e.contexts.is_empty());
    assert_eq!(e.root, Fail::AmbiguousSelector { selector: String::from("x"), matches: vec![1, 2] });
    assert_eq!(
        e.root.message(),
        "Multiple partitions matched the ambiguous selector 'x': 1, 2"
    );
    assert_eq!(indices(&vault), snapshot);
    assert_eq!(vault.partitions.len(), 3);
}

#[test]
fn leader_is_never_removed() {
    let mut vault = leader();
    vault.add_partition("a", None).unwrap();
    let before = indices(&vault);
    let e = vault.remove_partition("0").unwrap_err();
    assert!(e.contexts.is_empty());
    assert_eq!(e.root, Fail::RefusesToRemoveLeader { index: 0 });
    assert_eq!(e.root.message(), "Refusing to remove the leading partition at index 0");
    assert_eq!(indices(&vault), before);

    let e = vault.remove_partition("+0").unwrap_err();
    assert_eq!(e.root, Fail::RefusesToRemoveLeader { index: 0 });
    let e = vault.remove_partition("000").unwrap_err();
    assert_eq!(e.root, Fail::RefusesToRemoveLeader { index: 0 });
    assert_eq!(vault.partitions.len(), 1);
}

#[test]
fn leader_with_another_index_is_never_removed() {
    let mut vault = leader();
    vault.index = 5;
    vault.partitions.push(partition(0, Some("zero"), "zero"));
    let e = vault.remove_partition("5").unwrap_err();
    assert_eq!(e.root, Fail::RefusesToRemoveLeader { index: 5 });
    assert_eq!(vault.partitions.len(), 1);
    vault.remove_partition("0").unwrap();
    assert!(vault.partitions.is_empty());
}

#[test]
fn partition_index_by_index() {
    let partitions = vec![partition(1, Some("a"), "a"), partition(3, Some("b"), "b")];
    assert_eq!(Vault::partition_index("1", &partitions, Some(0)), Ok(1));
    assert_eq!(Vault::partition_index("3", &partitions, Some(0)), Ok(3));
    assert_eq!(Vault::partition_index("3", &partitions, None), Ok(3));
    let e = Vault::partition_index("2", &partitions, Some(0)).unwrap_err();
    assert_eq!(e.root, Fail::NoMatchingPartition { selector: String::from("2") });
    let e = Vault::partition_index("3", &partitions, Some(3)).unwrap_err();
    assert_eq!(e.root, Fail::RefusesToRemoveLeader { index: 3 });
    let e = Vault::partition_index("0", &partitions, None).unwrap_err();
    assert_eq!(e.root, Fail::NoMatchingPartition { selector: String::from("0") });
}

#[test]
fn partition_index_by_path_and_by_name() {
    let partitions = vec![
        partition(1, Some("first"), "one"),
        partition(2, None, "two"),
        partition(7, Some("two"), "seven"),
        partition(8, Some("dir/sub"), "eight"),
    ];
    assert_eq!(Vault::partition_index("one", &partitions, Some(0)), Ok(1));
    assert_eq!(Vault::partition_index("first", &partitions, Some(0)), Ok(1));
    assert_eq!(Vault::partition_index("seven", &partitions, None), Ok(7));
    assert_eq!(Vault::partition_index("dir/sub", &partitions, None), Ok(8));
    let e = Vault::partition_index("two", &partitions, Some(0)).unwrap_err();
    assert_eq!(e.root, Fail::AmbiguousSelector { selector: String::from("two"), matches: vec![2, 7] });
    let e = Vault::partition_index("three", &partitions, Some(0)).unwrap_err();
    assert_eq!(e.root, Fail::NoMatchingPartition { selector: String::from("three") });
    let e = Vault::partition_index("", &[], None).unwrap_err();
    assert_eq!(e.root, Fail::NoMatchingPartition { selector: String::new() });
}

#[test]
fn paths_are_compared_as_paths() {
    let partitions = vec![partition(1, None, "secrets/b"), partition(2, None, "./c")];
    assert_eq!(Vault::partition_index("secrets/b/", &partitions, None), Ok(1));
    assert_eq!(Vault::partition_index("secrets//b", &partitions, None), Ok(1));
    assert_eq!(Vault::partition_index("secrets/./b", &partitions, None), Ok(1));
    assert!(Vault::partition_index("secrets", &partitions, None).is_err());
    assert!(Vault::partition_index("secrets/bb", &partitions, None).is_err());
    assert!(Vault::partition_index("c", &partitions, None).is_err());
    assert_eq!(Vault::partition_index("./c", &partitions, None), Ok(2));
}

#[test]
fn a_partition_with_the_same_index_twice_is_found_by_index() {
    let partitions = vec![partition(4, Some("a"), "a"), partition(4, Some("b"), "b")];
    assert_eq!(Vault::partition_index("4", &partitions, None), Ok(4));
}

#[test]
fn add_partition_beside_the_secrets_directory() {
    let mut vault = leader();
    vault.secrets_dir = String::from("/vault/secrets");
    vault.recipients_file = String::from("/vault/secrets/.recipients");
    let notice = vault.add_partition("other", None).unwrap();
    assert_eq!(
        notice,
        Notice::AddedPartition { name: None, secrets_dir: String::from("/vault/other") }
    );
    let added = &vault.partitions[0];
    assert_eq!(added.name, Some(String::from("other")));
    assert_eq!(added.secrets_dir, "/vault/other");
    assert_eq!(added.recipients_file, "/vault/other/.recipients");
    assert_eq!(added.index, 1);

    vault.add_partition("deep/below", None).unwrap();
    let added = &vault.partitions[1];
    assert_eq!(added.name, Some(String::from("below")));
    assert_eq!(added.secrets_dir, "/vault/deep/below");
    assert_eq!(added.recipients_file, "/vault/deep/below/.recipients");
    assert_eq!(added.index, 2);

    vault.add_partition("/elsewhere", Some("far")).unwrap();
    let added = &vault.partitions[2];
    assert_eq!(added.name, Some(String::from("far")));
    assert_eq!(added.secrets_dir, "/elsewhere");
    assert_eq!(added.index, 3);
}

#[test]
fn add_partition_without_a_name_to_take() {
    let mut vault = leader();
    vault.add_partition("..", None).unwrap();
    assert_eq!(vault.partitions[0].name, None);
    assert_eq!(vault.partitions[0].secrets_dir, "..");
}

#[test]
fn add_partition_needs_a_directory_above_the_secrets() {
    let mut vault = leader();
    vault.secrets_dir = String::from("/");
    let before = indices(&vault);
    let e = vault.add_partition("x", None).unwrap_err();
    assert!(e.contexts.is_empty());
    assert_eq!(e.root, Fail::NoSecretsParent { secrets_dir: String::from("/") });
    assert_eq!(indices(&vault), before);

    let mut vault = leader();
    vault.secrets_dir = String::new();
    let e = vault.add_partition("x", None).unwrap_err();
    assert_eq!(e.root, Fail::NoSecretsParent { secrets_dir: String::new() });
}

#[test]
fn add_partition_needs_the_name_of_the_recipients_file() {
    let mut vault = leader();
    vault.recipients_file = String::from("..");
    let e = vault.add_partition("x", None).unwrap_err();
    assert!(e.contexts.is_empty());
    assert_eq!(e.root, Fail::NoRecipientsFileName { recipients_file: String::from("..") });
    assert!(vault.partitions.is_empty());
}

#[test]
fn indices_stay_distinct() {
    let mut vault = leader();
    vault.index = 3;
    for name in ["a", "b", "c", "d"].iter() {
        vault.add_partition(name, None).unwrap();
        assert_distinct(&indices(&vault));
    }
    assert_eq!(indices(&vault), vec![3, 4, 5, 6, 7]);
    vault.remove_partition("5").unwrap();
    assert_eq!(indices(&vault), vec![3, 4, 6, 7]);
    vault.remove_partition("d").unwrap();
    assert_eq!(indices(&vault), vec![3, 4, 6]);
    vault.add_partition("e", None).unwrap();
    assert_eq!(indices(&vault), vec![3, 4, 6, 7]);
    vault.remove_partition("4").unwrap();
    vault.remove_partition("6").unwrap();
    vault.remove_partition("7").unwrap();
    assert_eq!(indices(&vault), vec![3]);
    vault.add_partition("f", None).unwrap();
    assert_eq!(indices(&vault), vec![3, 4]);
    assert_distinct(&indices(&vault));
}

#[test]
fn remove_partition_takes_out_all_of_the_index() {
    let mut vault = leader();
    vault.partitions.push(partition(1, Some("a"), "a"));
    vault.partitions.push(partition(2, Some("b"), "b"));
    vault.partitions.push(partition(1, Some("c"), "c"));
    vault.remove_partition("1").unwrap();
    assert_eq!(vault.partitions, vec![partition(2, Some("b"), "b")]);
}

#[test]
fn max_index_is_the_largest() {
    let mut vault = leader();
    assert_eq!(vault.max_index(), 0);
    vault.partitions.push(partition(9, None, "a"));
    vault.partitions.push(partition(4, None, "b"));
    assert_eq!(vault.max_index(), 9);
    vault.index = 11;
    assert_eq!(vault.max_index(), 11);
}

#[test]
fn serialize_goes_to_the_configuration_file() {
    let vault = leader();
    assert_eq!(
        vault.serialize(),
        Ok(WritePlan { path: String::from("sy-vault.yml"), mode: WriteMode::AllowOverwrite })
    );
    let mut lost = leader();
    lost.vault_path = None;
    let e = lost.serialize().unwrap_err();
    assert!(e.contexts.is_empty());
    assert_eq!(e.root, Fail::UnknownVaultPath);
}

#[test]
fn init_twice_is_refused() {
    assert_eq!(may_write(WriteMode::RefuseOverwrite, false, "sy-vault.yml"), Ok(()));
    let e = may_write(WriteMode::RefuseOverwrite, true, "sy-vault.yml").unwrap_err();
    assert!(e.contexts.is_empty());
    assert_eq!(
        e.root,
        Fail::Vault(VaultError::ConfigurationFileExists(String::from("sy-vault.yml")))
    );
    assert_eq!(
        e.root.message(),
        "Cannot overwrite vault configuration file as it already exists at 'sy-vault.yml'\n"
    );
    assert_eq!(may_write(WriteMode::AllowOverwrite, true, "sy-vault.yml"), Ok(()));
    assert_eq!(may_write(WriteMode::AllowOverwrite, false, "sy-vault.yml"), Ok(()));
}

#[test]
fn absolute_paths_are_seen_from_the_configuration_file() {
    let mut vault = leader();
    vault.vault_path = Some(String::from("/home/me/vault/sy-vault.yml"));
    assert_eq!(vault.absolute_path(".gpg-id"), "/home/me/vault/.gpg-id");
    assert_eq!(vault.absolute_path("secrets/a"), "/home/me/vault/secrets/a");
    assert_eq!(vault.absolute_path("/etc/keys"), "/etc/keys");
    vault.vault_path = Some(String::from("sy-vault.yml"));
    assert_eq!(vault.absolute_path(".gpg-id"), ".gpg-id");
    vault.vault_path = None;
    assert_eq!(vault.absolute_path(".gpg-id"), ".gpg-id");
    vault.vault_path = Some(String::from("/"));
    assert_eq!(vault.absolute_path(".gpg-id"), ".gpg-id");
}

#[test]
fn a_new_vault_is_a_leader_at_index_zero() {
    let vault = Vault::init("sy-vault.yml", ".gpg-id", ".gpg-keys");
    assert_eq!(vault, leader());
}
