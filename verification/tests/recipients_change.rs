use sheesy_vault::error::{
    DecryptionError, EncryptionError, EngineError, Error, Fail, NO_SECKEY, UNUSABLE_PUBKEY,
};
use sheesy_vault::keys::Key;
use sheesy_vault::notice::Notice;
use sheesy_vault::recipients::change::{
    Change, Event, Next, Phase, RecipientsChange, Request, Stage, Trouble,
};
use sheesy_vault::vault::{SigningMode, Vault, VaultKind};

const K1: &str = "7F2A9C41B6D0E8135A4C7E9B2D6F0A1834C5E7B9";
const K2: &str = "2B8D4F6A1C3E5079B1D3F5A7C9E1B3D5F7A9C1E3";

fn vault() -> Vault {
    Vault {
        name: None,
        kind: VaultKind::Leader,
        index: 0,
        partitions: Vec::new(),
        vault_path: Some(String::from("/v/sy-vault.yml")),
        secrets_dir: String::from("."),
        gpg_keys_dir: Some(String::from(".gpg-keys")),
        recipients_file: String::from(".gpg-id"),
    }
}

fn fp(digits: &str) -> String {
    digits.repeat(40 / digits.len())
}

fn key(user_id: &str, digits: &str, trusted: bool) -> Key {
    Key { fingerprint: fp(digits), user_id: String::from(user_id), trusted }
}

fn fps(items: &[&str]) -> Vec<String> {
    items.iter().map(|s| fp(s)).collect()
}

fn texts(items: &[&str]) -> Vec<String> {
    items.iter().map(|s| String::from(*s)).collect()
}

fn engine(code: u32) -> EngineError {
    EngineError { code, description: String::from("engine says no") }
}

fn failed(work: RecipientsChange) -> Error {
    assert_eq!(work.pending(), Next::Fail);
    match work.outcome() {
        Some(Err(e)) => e,
        other => panic!("expected a failure, got {:?}", other),
    }
}

#[test]
fn add_recipient_triggers_reencryption() {
    let mut plain = vault();
    plain.gpg_keys_dir = None;
    let work = plain.add_recipients(&texts(&["two@example.com"]), SigningMode::Verified, None);
    assert_eq!(work.recipients_file, "/v/.gpg-id");
    assert_eq!(work.secrets_dir, "/v/.");
    assert_eq!(work.keys_dir, None);
    assert_eq!(
        work.pending(),
        Next::Do(Request::FindKeys { key_ids: texts(&["two@example.com"]) })
    );

    let k2 = Key { fingerprint: String::from(K2), user_id: String::from("Two <two@example.com>"), trusted: true };
    let (work, notices) = work.step(Event::Keys { keys: vec![k2.clone()], truncated: false });
    assert!(notices.is_empty());
    assert_eq!(work.keys, vec![k2.clone()]);
    assert_eq!(
        work.pending(),
        Next::Do(Request::ReadRecipients { file: String::from("/v/.gpg-id") })
    );

    let (work, notices) = work.step(Event::Recipients { recipients: texts(&[K1]) });
    assert_eq!(notices, vec![Notice::AddedRecipient { key: k2.clone() }]);
    assert_eq!(work.recipients, texts(&[K2, K1]));
    assert_eq!(
        work.pending(),
        Next::Do(Request::WriteRecipients {
            file: String::from("/v/.gpg-id"),
            contents: format!("{}\n{}\n", K2, K1),
        })
    );

    let (work, notices) = work.step(Event::Written);
    assert!(notices.is_empty());
    assert_eq!(
        work.pending(),
        Next::Do(Request::ListSecrets { secrets_dir: String::from("/v/.") })
    );

    let (work, notices) = work.step(Event::Secrets { files: texts(&["beta.gpg", "alpha.gpg"]) });
    assert!(notices.is_empty());
    assert_eq!(
        work.pending(),
        Next::Do(Request::Reencrypt {
            secrets_dir: String::from("/v/."),
            file: String::from("alpha.gpg"),
            recipients: texts(&[K2, K1]),
        })
    );

    let (work, notices) = work.step(Event::Reencrypted);
    assert_eq!(notices, vec![Notice::Reencrypted { file: String::from("alpha.gpg") }]);
    assert_eq!(
        work.pending(),
        Next::Do(Request::Reencrypt {
            secrets_dir: String::from("/v/."),
            file: String::from("beta.gpg"),
            recipients: texts(&[K2, K1]),
        })
    );
    assert_eq!(work.reencrypted, texts(&["alpha.gpg"]));

    let (work, notices) = work.step(Event::Reencrypted);
    assert_eq!(notices, vec![Notice::Reencrypted { file: String::from("beta.gpg") }]);
    assert_eq!(work.pending(), Next::Done);
    assert_eq!(work.reencrypted, texts(&["alpha.gpg", "beta.gpg"]));
    assert_eq!(work.phase, Phase::Finished);
    assert_eq!(work.outcome(), Some(Ok(())));
}

#[test]
fn unverified_recipients_are_imported_signed_and_exported() {
    let ids = texts(&["ann", "bob"]);
    let work = vault().add_recipients(&ids, SigningMode::Public, None);
    assert_eq!(work.keys_dir, Some(String::from("/v/.gpg-keys")));
    assert_eq!(
        work.pending(),
        Next::Do(Request::ImportKeys { keys_dir: String::from("/v/.gpg-keys"), key_ids: ids.clone() })
    );
    assert_eq!(work.phase, Phase::Importing { keys_dir: String::from("/v/.gpg-keys") });

    let ann = key("Ann", "AA", false);
    let bob = key("Bob", "BB", false);
    let old = key("Old friend", "0D", true);
    let (work, notices) =
        work.step(Event::Imported { keys: vec![bob.clone(), old.clone(), ann.clone()] });
    assert!(notices.is_empty());
    assert_eq!(work.pending(), Next::Do(Request::FindSigningKeys { key_id: None }));

    let me = key("Me <me@example.com>", "EE", true);
    let (work, notices) = work.step(Event::SigningKeys { keys: vec![me.clone()] });
    assert!(notices.is_empty());
    assert_eq!(
        work.pending(),
        Next::Do(Request::SignKey { fingerprint: fp("AA"), signer: me.clone() })
    );

    let (work, notices) = work.step(Event::Signed { key: ann.clone() });
    assert_eq!(notices, vec![Notice::SignedKey { key: ann.clone(), signer: me.clone() }]);
    assert_eq!(
        work.pending(),
        Next::Do(Request::SignKey { fingerprint: fp("BB"), signer: me.clone() })
    );
    let (work, notices) = work.step(Event::Signed { key: bob.clone() });
    assert_eq!(notices, vec![Notice::SignedKey { key: bob.clone(), signer: me.clone() }]);
    assert_eq!(work.pending(), Next::Do(Request::FindKeys { key_ids: ids.clone() }));

    let (work, notices) =
        work.step(Event::Keys { keys: vec![ann.clone(), bob.clone()], truncated: false });
    assert!(notices.is_empty());
    assert_eq!(
        work.pending(),
        Next::Do(Request::ExportKey { keys_dir: String::from("/v/.gpg-keys"), key: ann.clone() })
    );
    let (work, notices) = work.step(Event::Exported);
    assert_eq!(notices, vec![Notice::ExportedKey { key: ann.clone() }]);
    assert_eq!(
        work.pending(),
        Next::Do(Request::ExportKey { keys_dir: String::from("/v/.gpg-keys"), key: bob.clone() })
    );
    let (work, notices) = work.step(Event::Exported);
    assert_eq!(notices, vec![Notice::ExportedKey { key: bob.clone() }]);
    assert_eq!(
        work.pending(),
        Next::Do(Request::ReadRecipients { file: String::from("/v/.gpg-id") })
    );

    let (work, notices) = work.step(Event::Recipients { recipients: fps(&["BB", "EE"]) });
    assert_eq!(
        notices,
        vec![
            Notice::AddedRecipient { key: ann.clone() },
            Notice::AddedRecipient { key: bob.clone() }
        ]
    );
    assert_eq!(work.recipients, fps(&["AA", "BB", "EE"]));
    let (work, _) = work.step(Event::Written);
    let (work, notices) = work.step(Event::Secrets { files: Vec::new() });
    assert!(notices.is_empty());
    assert_eq!(work.pending(), Next::Done);
    assert_eq!(work.outcome(), Some(Ok(())));
}

#[test]
fn unverified_recipients_need_a_keys_directory() {
    let mut plain = vault();
    plain.gpg_keys_dir = None;
    let work = plain.add_recipients(&texts(&["ann"]), SigningMode::Public, None);
    let e = failed(work);
    assert!(e.contexts.is_empty());
    assert_eq!(e.root, Fail::KeysDirRequired);
}

#[test]
fn nothing_imported_means_nothing_to_sign() {
    let work = vault().add_recipients(&texts(&["ann"]), SigningMode::Public, Some("me"));
    let (work, _) = work.step(Event::Imported { keys: Vec::new() });
    assert_eq!(work.pending(), Next::Do(Request::FindKeys { key_ids: texts(&["ann"]) }));

    let work = vault().add_recipients(&texts(&["ann"]), SigningMode::Public, Some("me"));
    let (work, _) = work.step(Event::Imported { keys: vec![key("Ann", "AA", true)] });
    assert_eq!(work.pending(), Next::Do(Request::FindKeys { key_ids: texts(&["ann"]) }));

    let work = vault().add_recipients(&texts(&["ann"]), SigningMode::Public, Some("me"));
    let (work, _) = work.step(Event::Imported { keys: vec![key("Ann", "AA", false)] });
    assert_eq!(
        work.pending(),
        Next::Do(Request::FindSigningKeys { key_id: Some(String::from("me")) })
    );
}

#[test]
fn signing_key_must_be_the_only_one() {
    let remark = String::from(
        "Did not manage to find suitable signing key for re-exporting the recipient keys.",
    );
    let start = || {
        let work = vault().add_recipients(&texts(&["ann"]), SigningMode::Public, None);
        work.step(Event::Imported { keys: vec![key("Ann", "AA", false)] }).0
    };
    let two = vec![key("Me", "EE", true), key("Also me", "FF", true)];
    let (work, notices) = start().step(Event::SigningKeys { keys: two.clone() });
    assert!(notices.is_empty());
    let e = failed(work);
    assert_eq!(e.contexts, vec![remark.clone()]);
    assert_eq!(e.root, Fail::AmbiguousSigningKey { candidates: two });

    let (work, _) = start().step(Event::SigningKeys { keys: Vec::new() });
    let e = failed(work);
    assert_eq!(e.contexts, vec![remark.clone()]);
    assert_eq!(e.root, Fail::AmbiguousSigningKey { candidates: Vec::new() });
}

#[test]
fn a_named_signing_key_must_be_there() {
    let work = vault().add_recipients(&texts(&["ann"]), SigningMode::Public, Some("me"));
    let (work, _) = work.step(Event::Imported { keys: vec![key("Ann", "AA", false)] });
    let (work, _) = work.step(Event::SigningKeys { keys: Vec::new() });
    let e = failed(work);
    assert_eq!(e.contexts.len(), 1);
    assert_eq!(e.root, Fail::NoSigningKey { key_id: String::from("me") });

    let work = vault().add_recipients(&texts(&["ann"]), SigningMode::Public, Some("me"));
    let (work, _) = work.step(Event::Imported { keys: vec![key("Ann", "AA", false)] });
    let two = vec![key("Me", "EE", true), key("Me too", "FF", true)];
    let (work, _) = work.step(Event::SigningKeys { keys: two.clone() });
    let e = failed(work);
    assert_eq!(e.root, Fail::AmbiguousSigningKey { candidates: two });
}

#[test]
fn truncated_key_list_is_refused() {
    let work = vault().add_recipients(&texts(&["ann"]), SigningMode::Verified, None);
    let (work, _) = work.step(Event::Keys { keys: vec![key("Ann", "AA", true)], truncated: true });
    let e = failed(work);
    assert!(e.contexts.is_empty());
    assert_eq!(e.root, Fail::KeylistTruncated);
}

#[test]
fn as_many_keys_as_recipients_are_wanted() {
    let work = vault().add_recipients(&texts(&["ann", "bob"]), SigningMode::Verified, None);
    let found = vec![key("Ann", "AA", true)];
    let (work, _) = work.step(Event::Keys { keys: found.clone(), truncated: false });
    let e = failed(work);
    assert_eq!(e.root, Fail::ViableKeys { found, requested: 2 });

    let work = vault().add_recipients(&texts(&["ann"]), SigningMode::Verified, None);
    let found = vec![key("Ann", "AA", true), key("Ann again", "AB", true)];
    let (work, _) = work.step(Event::Keys { keys: found.clone(), truncated: false });
    let e = failed(work);
    assert!(e.contexts.is_empty());
    assert_eq!(e.root, Fail::AmbiguousKeyId { matches: found });
}

#[test]
fn verified_recipients_must_be_trusted() {
    let work = vault().add_recipients(&texts(&["ann", "bob", "cyd"]), SigningMode::Verified, None);
    let found = vec![key("Ann", "AA", false), key("Bob", "BB", true), key("Cyd", "CC", false)];
    let (work, notices) = work.step(Event::Keys { keys: found, truncated: false });
    assert!(notices.is_empty());
    assert!(work.keys.is_empty());
    let e = failed(work);
    assert!(e.contexts.is_empty());
    assert_eq!(
        e.root,
        Fail::Encryption(EncryptionError {
            cause: EngineError {
                code: UNUSABLE_PUBKEY,
                description: format!("Ann ({}), Cyd ({})", fp("AA"), fp("CC"))
            }
        })
    );
}

#[test]
fn unverified_recipients_need_not_be_trusted_yet() {
    let work = vault().add_recipients(&texts(&["ann"]), SigningMode::Public, None);
    let (work, _) = work.step(Event::Imported { keys: Vec::new() });
    let found = vec![key("Ann", "AA", false)];
    let (work, _) = work.step(Event::Keys { keys: found.clone(), truncated: false });
    assert_eq!(work.keys, found);
    assert!(matches!(work.pending(), Next::Do(Request::ExportKey { .. })));
}

fn reencrypting() -> RecipientsChange {
    let mut plain = vault();
    plain.gpg_keys_dir = None;
    let work = plain.add_recipients(&texts(&["ann"]), SigningMode::Verified, None);
    let (work, _) = work.step(Event::Keys { keys: vec![key("Ann", "AA", true)], truncated: false });
    let (work, _) = work.step(Event::Recipients { recipients: Vec::new() });
    let (work, _) = work.step(Event::Written);
    let (work, _) = work.step(Event::Secrets { files: texts(&["b.gpg", "a.gpg", "c.gpg"]) });
    work.step(Event::Reencrypted).0
}

#[test]
fn reencryption_stops_at_the_first_failure() {
    let work = reencrypting();
    assert!(matches!(work.pending(), Next::Do(Request::Reencrypt { ref file, .. }) if file == "b.gpg"));
    let (work, notices) = work.step(Event::Failed {
        stage: Stage::Decrypt,
        trouble: Trouble::Engine(engine(NO_SECKEY)),
    });
    assert!(notices.is_empty());
    assert_eq!(work.reencrypted, texts(&["a.gpg"]));
    assert_eq!(work.pending(), Next::Fail);
    let (work, notices) = work.step(Event::Reencrypted);
    assert!(notices.is_empty());
    assert_eq!(work.reencrypted, texts(&["a.gpg"]));
    let e = failed(work);
    assert_eq!(
        e.contexts,
        vec![String::from("Could not decrypt 'b.gpg' to re-encrypt for new recipients.")]
    );
    assert_eq!(e.root, Fail::Decryption(DecryptionError { cause: engine(NO_SECKEY) }));
}

#[test]
fn reencryption_failures_say_where_they_came_from() {
    let fail = |stage: Stage, trouble: Trouble| failed(reencrypting().step(Event::Failed { stage, trouble }).0);
    let io = || Trouble::Io { description: String::from("disk full"), missing: false };

    let e = fail(Stage::Decrypt, Trouble::Engine(engine(1)));
    assert_eq!(
        e.contexts,
        vec![
            String::from("Could not decrypt 'b.gpg' to re-encrypt for new recipients."),
            String::from("Failed to decrypt data.")
        ]
    );
    assert_eq!(e.root, Fail::Engine(engine(1)));

    let e = fail(Stage::Encrypt, Trouble::Engine(engine(UNUSABLE_PUBKEY)));
    assert!(e.contexts.is_empty());
    assert_eq!(e.root, Fail::Encryption(EncryptionError { cause: engine(UNUSABLE_PUBKEY) }));

    let e = fail(Stage::Encrypt, Trouble::Engine(engine(NO_SECKEY)));
    assert_eq!(e.contexts, vec![String::from("Failed to re-encrypt b.gpg.")]);
    assert_eq!(e.root, Fail::Engine(engine(NO_SECKEY)));

    let e = fail(Stage::Temp, io());
    assert_eq!(
        e.contexts,
        vec![String::from("Failed to create temporary file to hold decrypted 'b.gpg'")]
    );
    assert_eq!(e.root, Fail::Io(String::from("disk full")));

    let e = fail(Stage::Open, io());
    assert_eq!(e.contexts, vec![String::from("Could not open 'b.gpg' to write encrypted data")]);
    let e = fail(Stage::Write, io());
    assert_eq!(e.contexts, vec![String::from("Failed to write out encrypted data to 'b.gpg'")]);
    let e = fail(Stage::Encrypt, io());
    assert_eq!(e.contexts, vec![String::from("Failed to re-encrypt b.gpg.")]);
    let e = fail(Stage::Decrypt, io());
    assert_eq!(
        e.contexts,
        vec![String::from("Could not decrypt 'b.gpg' to re-encrypt for new recipients.")]
    );
}

#[test]
fn a_secret_that_vanished_is_a_race() {
    let (work, _) = reencrypting().step(Event::Failed {
        stage: Stage::Decrypt,
        trouble: Trouble::Io { description: String::from("not found"), missing: true },
    });
    let e = failed(work);
    assert!(e.contexts.is_empty());
    assert_eq!(e.root, Fail::RaceDuringReencrypt { file: String::from("b.gpg") });
}

#[test]
fn failures_before_reencryption() {
    let io = || Trouble::Io { description: String::from("denied"), missing: true };
    let work = vault().add_recipients(&texts(&["ann"]), SigningMode::Verified, None);
    let (work, _) = work.step(Event::Failed { stage: Stage::Open, trouble: Trouble::Engine(engine(NO_SECKEY)) });
    let e = failed(work);
    assert!(e.contexts.is_empty());
    assert_eq!(e.root, Fail::Engine(engine(NO_SECKEY)));

    let mut plain = vault();
    plain.gpg_keys_dir = None;
    let written = || {
        let work = plain.add_recipients(&texts(&["ann"]), SigningMode::Verified, None);
        let (work, _) = work.step(Event::Keys { keys: vec![key("Ann", "AA", true)], truncated: false });
        work.step(Event::Recipients { recipients: Vec::new() }).0
    };
    let (work, _) = written().step(Event::Failed { stage: Stage::Open, trouble: io() });
    let e = failed(work);
    assert_eq!(e.contexts, vec![String::from("Failed to open recipients at '/v/.gpg-id' file for writing")]);
    assert_eq!(e.root, Fail::Io(String::from("denied")));
    let (work, _) = written().step(Event::Failed { stage: Stage::Write, trouble: io() });
    let e = failed(work);
    assert_eq!(e.contexts, vec![String::from("Failed to write recipients to file at '/v/.gpg-id'")]);

    let work = vault().add_recipients(&texts(&["ann"]), SigningMode::Public, None);
    let (work, _) = work.step(Event::Imported { keys: vec![key("Ann", "AA", false)] });
    let (work, _) = work.step(Event::SigningKeys { keys: vec![key("Me", "EE", true)] });
    let (work, _) = work.step(Event::Failed { stage: Stage::Write, trouble: Trouble::Engine(engine(9)) });
    let e = failed(work);
    assert_eq!(
        e.contexts,
        vec![format!("Could not sign key of recipient {} with signing key Me ({})", fp("AA"), fp("EE"))]
    );
    assert_eq!(e.root, Fail::Engine(engine(9)));
}

#[test]
fn what_was_not_asked_for_ends_the_work() {
    let work = vault().add_recipients(&texts(&["ann"]), SigningMode::Verified, None);
    let (work, notices) = work.step(Event::Written);
    assert!(notices.is_empty());
    let e = failed(work);
    assert!(e.contexts.is_empty());
    assert_eq!(e.root, Fail::OutOfTurn);
}

#[test]
fn work_that_is_over_stays_over() {
    let mut plain = vault();
    plain.gpg_keys_dir = None;
    let work = plain.add_recipients(&texts(&[]), SigningMode::Verified, None);
    let (work, _) = work.step(Event::Keys { keys: Vec::new(), truncated: false });
    let (work, notices) = work.step(Event::Recipients { recipients: fps(&["B", "A", "B"]) });
    assert!(notices.is_empty());
    assert_eq!(work.recipients, fps(&["A", "B"]));
    let (work, _) = work.step(Event::Written);
    let (work, _) = work.step(Event::Secrets { files: Vec::new() });
    assert_eq!(work.pending(), Next::Done);
    let (work, notices) = work.step(Event::Reencrypted);
    assert!(notices.is_empty());
    assert_eq!(work.pending(), Next::Done);
    let (work, _) = work.step(Event::Failed {
        stage: Stage::Write,
        trouble: Trouble::Io { description: String::from("late"), missing: false },
    });
    assert_eq!(work.outcome(), Some(Ok(())));
}

#[test]
fn outcome_is_open_while_work_goes_on() {
    let work = vault().add_recipients(&texts(&["ann"]), SigningMode::Verified, None);
    assert_eq!(work.outcome(), None);
}

#[test]
fn imported_keys_are_signed_once_and_in_order() {
    let work = vault().add_recipients(&texts(&["ann"]), SigningMode::Public, None);
    let imported = vec![
        key("Cyd", "CC", false),
        key("Ann", "AA", false),
        key("Dee", "DD", true),
        key("Cyd", "CC", false),
        key("Bob", "BB", false),
    ];
    let (work, _) = work.step(Event::Imported { keys: imported });
    assert_eq!(work.phase, Phase::SelectingSigner { imported: fps(&["AA", "BB", "CC"]) });
}

#[test]
fn keys_must_have_fingerprints() {
    let work = vault().add_recipients(&texts(&["ann", "bob"]), SigningMode::Verified, None);
    let mut short = key("Bob", "BB", true);
    short.fingerprint.pop();
    let found = vec![key("Ann", "AA", true), short.clone()];
    let (work, _) = work.step(Event::Keys { keys: found, truncated: false });
    let e = failed(work);
    assert!(e.contexts.is_empty());
    assert_eq!(e.root, Fail::InvalidFingerprint { text: short.fingerprint.clone() });
    assert_eq!(
        e.root.message(),
        format!(
            "Expected a fingerprint of 40 or 64 upper-case hexadecimal digits, got '{}'",
            short.fingerprint
        )
    );
}

#[test]
fn the_recipients_file_must_hold_fingerprints() {
    let mut plain = vault();
    plain.gpg_keys_dir = None;
    let work = plain.add_recipients(&texts(&["ann"]), SigningMode::Verified, None);
    let (work, _) = work.step(Event::Keys { keys: vec![key("Ann", "AA", true)], truncated: false });
    let lower = fp("ab");
    let (work, notices) = work.step(Event::Recipients {
        recipients: vec![fp("0123456789"), lower.clone(), String::from("ann@example.com")],
    });
    assert!(notices.is_empty());
    assert!(work.recipients.is_empty());
    let e = failed(work);
    assert!(e.contexts.is_empty());
    assert_eq!(e.root, Fail::InvalidFingerprint { text: lower });
}

#[test]
fn long_fingerprints_are_fingerprints() {
    let mut plain = vault();
    plain.gpg_keys_dir = None;
    let work = plain.add_recipients(&texts(&["ann"]), SigningMode::Verified, None);
    let long = "0123456789ABCDEF".repeat(4);
    let ann = Key { fingerprint: long.clone(), user_id: String::from("Ann"), trusted: true };
    let (work, _) = work.step(Event::Keys { keys: vec![ann], truncated: false });
    let (work, _) = work.step(Event::Recipients { recipients: vec![fp("F")] });
    assert_eq!(work.recipients, vec![long, fp("F")]);
}

#[test]
fn remove_recipient_triggers_reencryption() {
    let work = vault().remove_recipients(&texts(&["ann"]));
    assert_eq!(work.change, Change::Remove);
    assert_eq!(work.pending(), Next::Do(Request::FindKeys { key_ids: texts(&["ann"]) }));

    let ann = key("Ann", "AA", false);
    let (work, notices) = work.step(Event::Keys { keys: vec![ann.clone()], truncated: false });
    assert!(notices.is_empty());
    assert_eq!(
        work.pending(),
        Next::Do(Request::ReadRecipients { file: String::from("/v/.gpg-id") })
    );

    let (work, notices) = work.step(Event::Recipients { recipients: fps(&["CC", "AA", "BB"]) });
    assert_eq!(notices, vec![Notice::RemovedRecipient { key: ann.clone() }]);
    assert_eq!(work.recipients, fps(&["BB", "CC"]));
    assert_eq!(
        work.pending(),
        Next::Do(Request::WriteRecipients {
            file: String::from("/v/.gpg-id"),
            contents: format!("{}\n{}\n", fp("BB"), fp("CC")),
        })
    );
    let (work, _) = work.step(Event::Written);
    let (work, _) = work.step(Event::Secrets { files: texts(&["alpha.gpg"]) });
    assert_eq!(
        work.pending(),
        Next::Do(Request::Reencrypt {
            secrets_dir: String::from("/v/."),
            file: String::from("alpha.gpg"),
            recipients: fps(&["BB", "CC"]),
        })
    );
    let (work, notices) = work.step(Event::Reencrypted);
    assert_eq!(notices, vec![Notice::Reencrypted { file: String::from("alpha.gpg") }]);
    assert_eq!(work.outcome(), Some(Ok(())));
}

#[test]
fn removing_who_is_no_recipient_changes_no_list() {
    let work = vault().remove_recipients(&texts(&["ann"]));
    let (work, _) = work.step(Event::Keys { keys: vec![key("Ann", "AA", true)], truncated: false });
    let (work, _) = work.step(Event::Recipients { recipients: fps(&["CC", "BB", "CC"]) });
    assert_eq!(work.recipients, fps(&["BB", "CC"]));
}

#[test]
fn removal_needs_the_keys_too() {
    let work = vault().remove_recipients(&texts(&["ann"]));
    let (work, _) = work.step(Event::Keys { keys: Vec::new(), truncated: false });
    let e = failed(work);
    assert_eq!(e.root, Fail::ViableKeys { found: Vec::new(), requested: 1 });
    let work = vault().remove_recipients(&texts(&["ann"]));
    let (work, _) = work.step(Event::Imported { keys: Vec::new() });
    let e = failed(work);
    assert_eq!(e.root, Fail::OutOfTurn);
}
