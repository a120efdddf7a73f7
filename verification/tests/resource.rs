use sheesy_vault::error::Fail;
use sheesy_vault::keys::{
    first_bad_fingerprint, is_fingerprint_text, keys_label, Key, Validity,
};
use sheesy_vault::notice::Notice;
use sheesy_vault::resource::{
    begin_edit, end_edit, list_resources, logical_name, may_add, physical_name, removal_failure,
    EditStart,
};
use sheesy_vault::vault::CreateMode;

#[test]
fn logical_name_is_the_path_without_the_suffix() {
    assert_eq!(logical_name("alpha.gpg"), "alpha");
    assert_eq!(logical_name("dir/beta.gpg"), "dir/beta");
    assert_eq!(logical_name("a.tar.gpg"), "a.tar");
    assert_eq!(logical_name(".gpg"), "");
    assert_eq!(logical_name("x.gpg.gpg"), "x.gpg");
    assert_eq!(logical_name("é.gpg"), "é");
}

#[test]
fn logical_name_leaves_other_paths_alone() {
    assert_eq!(logical_name("alpha"), "alpha");
    assert_eq!(logical_name("alpha.GPG"), "alpha.GPG");
    assert_eq!(logical_name("alpha.gpg.txt"), "alpha.gpg.txt");
    assert_eq!(logical_name("gpg"), "gpg");
    assert_eq!(logical_name(""), "");
    assert_eq!(logical_name("agpg"), "agpg");
}

#[test]
fn physical_name_adds_the_suffix() {
    assert_eq!(physical_name("alpha"), "alpha.gpg");
    assert_eq!(physical_name(""), ".gpg");
    assert_eq!(logical_name(&physical_name("dir/x.y")), "dir/x.y");
}

#[test]
fn resources_are_listed_by_name_in_order() {
    let paths: Vec<String> =
        ["b.gpg", "a/z.gpg", "a.gpg", "B.gpg", "a.gpg"].iter().map(|s| String::from(*s)).collect();
    assert_eq!(list_resources(&paths), vec!["B", "a", "a/z", "b"]);
    assert_eq!(list_resources(&Vec::new()), Vec::<String>::new());
}

#[test]
fn notices_say_what_was_done() {
    let key = Key {
        fingerprint: String::from("AB12"),
        user_id: String::from("Ann <ann@example.com>"),
        trusted: false,
    };
    let signer = Key {
        fingerprint: String::from("CD34"),
        user_id: String::from("Bob <bob@example.com>"),
        trusted: true,
    };
    assert_eq!(key.label(), "Ann <ann@example.com> (AB12)");
    assert_eq!(
        keys_label(&vec![key.clone(), signer.clone()]),
        "Ann <ann@example.com> (AB12), Bob <bob@example.com> (CD34)"
    );
    assert_eq!(keys_label(&vec![]), "");
    assert_eq!(
        Notice::RemovedPartition { selector: String::from("x") }.message(),
        "Removed partition matching selector 'x'"
    );
    assert_eq!(
        Notice::AddedPartition { name: Some(String::from("b")), secrets_dir: String::from("s/b") }
            .message(),
        "Added partition 'b' with resources at 's/b'"
    );
    assert_eq!(
        Notice::AddedPartition { name: None, secrets_dir: String::from("s/b") }.message(),
        "Added unnamed partition with resources at 's/b'"
    );
    assert_eq!(
        Notice::SignedKey { key: key.clone(), signer: signer.clone() }.message(),
        "Signed recipients key Ann <ann@example.com> (AB12) with signing key Bob <bob@example.com> (CD34)"
    );
    assert_eq!(
        Notice::ExportedKey { key: key.clone() }.message(),
        "Exported key 'AB12' for user Ann <ann@example.com>"
    );
    assert_eq!(
        Notice::AddedRecipient { key: key.clone() }.message(),
        "Added recipient Ann <ann@example.com>"
    );
    assert_eq!(
        Notice::RemovedRecipient { key: key.clone() }.message(),
        "Removed recipient Ann <ann@example.com>"
    );
    assert_eq!(
        Notice::Reencrypted { file: String::from("dir/alpha.gpg") }.message(),
        "Re-encrypted 'dir/alpha' for new recipient(s)"
    );
}

#[test]
fn edit_starts_from_what_is_there() {
    assert_eq!(begin_edit(CreateMode::Create, true, "foo"), Ok(EditStart::Existing));
    assert_eq!(begin_edit(CreateMode::NoCreate, true, "foo"), Ok(EditStart::Existing));
    assert_eq!(begin_edit(CreateMode::Create, false, "foo"), Ok(EditStart::Nothing));
    let e = begin_edit(CreateMode::NoCreate, false, "foo").unwrap_err();
    assert!(e.contexts.is_empty());
    assert_eq!(e.root, Fail::ResourceNotFound { name: String::from("foo") });
    assert_eq!(e.root.message(), "The resource 'foo' does not exist");
}

#[test]
fn edit_aborted_changes_nothing() {
    assert_eq!(end_edit(true, "vim"), Ok(()));
    let e = end_edit(false, "vim").unwrap_err();
    assert!(e.contexts.is_empty());
    assert_eq!(e.root, Fail::EditorFailed { editor: String::from("vim") });
    assert_eq!(e.root.message(), "The editor 'vim' did not end well, nothing was changed");
}

#[test]
fn adding_never_writes_over_a_resource() {
    assert_eq!(may_add(false, "foo"), Ok(()));
    let e = may_add(true, "foo").unwrap_err();
    assert_eq!(e.root, Fail::ResourceExists { name: String::from("foo") });
    assert_eq!(e.root.message(), "Refusing to overwrite the existing resource 'foo'");
    let e = removal_failure("foo", true, String::from("No such file"));
    assert_eq!(e.root, Fail::ResourceNotFound { name: String::from("foo") });
    let e = removal_failure("foo", false, String::from("denied"));
    assert_eq!(e.root, Fail::Io(String::from("denied")));
}

#[test]
fn keys_are_trusted_by_owner_or_by_validity() {
    let all = [
        Validity::Unknown,
        Validity::Undefined,
        Validity::Never,
        Validity::Marginal,
        Validity::Full,
        Validity::Ultimate,
    ];
    for owner in all.iter() {
        for valid in all.iter() {
            let key = Key::from_engine(String::from("AA"), String::from("Ann"), *owner, *valid);
            let expected = *owner == Validity::Ultimate
                || *valid == Validity::Full
                || *valid == Validity::Ultimate;
            assert_eq!(key.trusted, expected, "{:?} {:?}", owner, valid);
            assert_eq!(key.fingerprint, "AA");
            assert_eq!(key.user_id, "Ann");
        }
    }
}

#[test]
fn fingerprints_are_upper_case_hexadecimal() {
    assert!(is_fingerprint_text("7F2A9C41B6D0E8135A4C7E9B2D6F0A1834C5E7B9"));
    assert!(is_fingerprint_text(&"0123456789ABCDEF".repeat(4)));
    assert!(!is_fingerprint_text(""));
    assert!(!is_fingerprint_text("7F2A"));
    assert!(!is_fingerprint_text("7f2a9c41b6d0e8135a4c7e9b2d6f0a1834c5e7b9"));
    assert!(!is_fingerprint_text("7F2A9C41B6D0E8135A4C7E9B2D6F0A1834C5E7BG"));
    assert!(!is_fingerprint_text("7F2A9C41B6D0E8135A4C7E9B2D6F0A1834C5E7B"));
    assert!(!is_fingerprint_text("7F2A9C41B6D0E8135A4C7E9B2D6F0A1834C5E7B90"));
    assert!(!is_fingerprint_text("7F2A 9C41 B6D0 E813 5A4C 7E9B 2D6F 0A18 34C5 E7B9"));
    assert!(!is_fingerprint_text(" 7F2A9C41B6D0E8135A4C7E9B2D6F0A1834C5E7B"));
    assert!(!is_fingerprint_text(&"A".repeat(63)));
    assert!(!is_fingerprint_text(&"A".repeat(65)));
    assert!(!is_fingerprint_text(&"é".repeat(20)));
    assert!(!is_fingerprint_text(&"é".repeat(40)));
    assert!(!is_fingerprint_text("7F2A9C41B6D0E8135A4C7E9B2D6F0A1834C5E7B/"));
    assert!(!is_fingerprint_text("7F2A9C41B6D0E8135A4C7E9B2D6F0A1834C5E7B:"));
    assert!(!is_fingerprint_text("7F2A9C41B6D0E8135A4C7E9B2D6F0A1834C5E7B@"));
    assert_eq!(first_bad_fingerprint(&vec!["A".repeat(40), String::from("x"), String::new()]), Some(1));
    assert_eq!(first_bad_fingerprint(&vec!["A".repeat(40), "B".repeat(64)]), None);
    assert_eq!(first_bad_fingerprint(&Vec::new()), None);
}
