//! Adding recipients to a vault, or removing them: what is asked of the
//! OpenPGP engine and of the file system, in which order, and what is made
//! of each answer.
//!
//! The library does none of that work itself. It says what to do next
//! (`RecipientsChange::pending`), is told how it went (`RecipientsChange::step`),
//! and decides from there. Whoever drives it does what is asked, once, and
//! reports it.

use crate::error::{
    lines_text, DecryptionError, EncryptionError, EngineError, Error, Fail, NO_SECKEY,
    UNUSABLE_PUBKEY,
};
use crate::keys::{
    all_fingerprints, copy_keys, fingerprints, first_bad_fingerprint, first_bad_key,
    is_first_bad_fingerprint, keys_label, keys_text, Key,
};
use crate::notice::Notice;
use crate::recipients::{
    is_normal_form_of, lemma_is_normal_form, lines_of, normal_form, normalize_recipients,
    strictly_sorted, without, without_recipients,
};
use crate::text::{copy_optional_text, copy_texts, join3, texts};
use crate::vault::{SigningMode, Vault};
use vstd::prelude::*;
use vstd::string::*;

verus! {

/// The part of a piece of work at which it failed.
#[derive(Clone, Copy, Debug, PartialEq, Eq, Structural)]
pub enum Stage {
    /// Opening the file that was to be written.
    Open,
    /// Writing to the file.
    Write,
    /// Making the temporary file for what was decrypted.
    Temp,
    /// Decrypting.
    Decrypt,
    /// Encrypting.
    Encrypt,
}

/// What went wrong in a piece of work that was asked for.
#[derive(Debug, PartialEq, Eq)]
pub enum Trouble {
    /// The engine refused.
    Engine(EngineError),
    /// The file system refused; `missing` where it did because the file
    /// was not there.
    Io { description: String, missing: bool },
}

/// A piece of work for whoever drives the library.
#[derive(Debug, PartialEq, Eq)]
pub enum Request {
    /// Import into the keyring, from the directory `keys_dir`, the keys
    /// of those called `key_ids`, and say what the keyring holds of each
    /// afterwards. Answered by `Event::Imported`.
    ImportKeys { keys_dir: String, key_ids: Vec<String> },
    /// List the secret keys of the keyring that `key_id` stands for, or
    /// all of them where there is no `key_id`. Answered by
    /// `Event::SigningKeys`.
    FindSigningKeys { key_id: Option<String> },
    /// Sign the key with this fingerprint with the key `signer`. Answered
    /// by `Event::Signed`.
    SignKey { fingerprint: String, signer: Key },
    /// List the keys of the keyring that `key_ids` stand for. Answered by
    /// `Event::Keys`.
    FindKeys { key_ids: Vec<String> },
    /// Write the public key `key` to the directory `keys_dir`. Answered by
    /// `Event::Exported`.
    ExportKey { keys_dir: String, key: Key },
    /// Read the recipients file. Answered by `Event::Recipients`.
    ReadRecipients { file: String },
    /// Write `contents` to the recipients file. Answered by
    /// `Event::Written`.
    WriteRecipients { file: String, contents: String },
    /// List the encrypted files below `secrets_dir`, each as seen from
    /// there. Answered by `Event::Secrets`.
    ListSecrets { secrets_dir: String },
    /// Decrypt `file`, which is below `secrets_dir`, and encrypt it again
    /// for `recipients`. Answered by `Event::Reencrypted`.
    Reencrypt { secrets_dir: String, file: String, recipients: Vec<String> },
}

/// What comes next.
#[derive(Debug, PartialEq, Eq)]
pub enum Next {
    /// This piece of work.
    Do(Request),
    /// Nothing: all is done.
    Done,
    /// Nothing: the work has failed.
    Fail,
}

/// How a piece of work went.
#[derive(Debug, PartialEq, Eq)]
pub enum Event {
    /// These keys were imported.
    Imported { keys: Vec<Key> },
    /// The keyring holds these secret keys for what was asked.
    SigningKeys { keys: Vec<Key> },
    /// This key was signed.
    Signed { key: Key },
    /// The keyring holds these keys for what was asked; `truncated` where
    /// the engine says that the list is not complete.
    Keys { keys: Vec<Key>, truncated: bool },
    /// The key was exported.
    Exported,
    /// The recipients file holds these recipients.
    Recipients { recipients: Vec<String> },
    /// The recipients file was written.
    Written,
    /// These are the encrypted files.
    Secrets { files: Vec<String> },
    /// The file was encrypted anew.
    Reencrypted,
    /// The work failed at `stage`.
    Failed { stage: Stage, trouble: Trouble },
}

/// How far the work has come.
#[derive(Debug, PartialEq, Eq)]
#[allow(inconsistent_fields)]
pub enum Phase {
    /// The recipients' keys are being imported from `keys_dir`.
    Importing { keys_dir: String },
    /// The key to sign with is being looked for; the keys with the
    /// fingerprints `imported` wait to be signed.
    SelectingSigner { imported: Vec<String> },
    /// The key with the fingerprint `current` is being signed; those of
    /// `rest` follow.
    Signing { signer: Key, current: String, rest: Vec<String> },
    /// The recipients' keys are being looked up.
    FindingKeys,
    /// The key `current` is being exported; those of `rest` follow.
    Exporting { keys_dir: String, current: Key, rest: Vec<Key> },
    /// The recipients file is being read.
    ReadingRecipients,
    /// The recipients file is being written.
    WritingRecipients,
    /// The encrypted files are being listed.
    Listing,
    /// The file `current` is being encrypted anew; those of `rest` follow.
    Reencrypting { current: String, rest: Vec<String> },
    /// All is done.
    Finished,
    /// The work has failed, with this failure.
    Failed(Error),
}

/// What is done to the recipients of a vault.
#[derive(Clone, Copy, Debug, PartialEq, Eq, Structural)]
pub enum Change {
    /// They get more.
    Add,
    /// They get fewer.
    Remove,
}

/// The work of adding recipients to a vault, or of removing them, and how
/// far it has come.
#[derive(Debug, PartialEq, Eq)]
pub struct RecipientsChange {
    /// Whether recipients are added or removed.
    pub change: Change,
    /// What the recipients to add or remove were called.
    pub key_ids: Vec<String>,
    /// Whether their keys are signed first.
    pub sign: SigningMode,
    /// What the key to sign with was called, if it was named.
    pub signing_key_id: Option<String>,
    /// The vault's directory of public keys, if it has one.
    pub keys_dir: Option<String>,
    /// The vault's recipients file.
    pub recipients_file: String,
    /// The vault's directory of secrets.
    pub secrets_dir: String,
    /// The keys of the recipients to add or remove, once they were found.
    pub keys: Vec<Key>,
    /// The recipients of the vault as they are to be from now on, once
    /// the recipients file was read.
    pub recipients: Vec<String>,
    /// The secrets that were encrypted anew so far, in that order.
    pub reencrypted: Vec<String>,
    pub phase: Phase,
}

/// What is said where no key to sign with was found.
pub open spec fn signer_remark() -> Seq<char> {
    "Did not manage to find suitable signing key for re-exporting the recipient keys."@
}

/// The keys that the keyring does not trust.
pub open spec fn untrusted(keys: Seq<Key>) -> Seq<Key> {
    keys.filter(|key: Key| !key.trusted)
}

/// The failure that a piece of work ends in, given how far the work had
/// come. A secret that is missing when it is to be encrypted anew has
/// vanished meanwhile; an engine that finds no secret key to decrypt
/// with, or cannot use a key to encrypt to, fails in the way that is
/// named after that; all else is passed on as it was reported.
pub open spec fn failure_root(phase: Phase, stage: Stage, trouble: Trouble) -> Fail {
    match phase {
        Phase::Reencrypting { current, .. } => reencrypt_root(current, stage, trouble),
        _ => match trouble {
            Trouble::Io { description, .. } => Fail::Io(description),
            Trouble::Engine(e) => Fail::Engine(e),
        },
    }
}

/// The failure that encrypting `file` anew ends in.
pub open spec fn reencrypt_root(file: String, stage: Stage, trouble: Trouble) -> Fail {
    match trouble {
        Trouble::Io { description, missing } => if missing {
            Fail::RaceDuringReencrypt { file }
        } else {
            Fail::Io(description)
        },
        Trouble::Engine(e) => if stage == Stage::Decrypt && e.code == NO_SECKEY {
            Fail::Decryption(DecryptionError { cause: e })
        } else if stage == Stage::Encrypt && e.code == UNUSABLE_PUBKEY {
            Fail::Encryption(EncryptionError { cause: e })
        } else {
            Fail::Engine(e)
        },
    }
}

/// The remarks under which the failure to encrypt `file` anew is passed
/// on, the outermost first.
pub open spec fn reencrypt_remarks(file: Seq<char>, stage: Stage, trouble: Trouble) -> Seq<
    Seq<char>,
> {
    match trouble {
        Trouble::Io { missing, .. } => if missing {
            Seq::empty()
        } else {
            match stage {
                Stage::Temp => seq![
                    "Failed to create temporary file to hold decrypted '"@ + file + "'"@,
                ],
                Stage::Decrypt => seq![
                    "Could not decrypt '"@ + file + "' to re-encrypt for new recipients."@,
                ],
                Stage::Encrypt => seq!["Failed to re-encrypt "@ + file + "."@],
                Stage::Open => seq!["Could not open '"@ + file + "' to write encrypted data"@],
                Stage::Write => seq!["Failed to write out encrypted data to '"@ + file + "'"@],
            }
        },
        Trouble::Engine(e) => match stage {
            Stage::Temp => seq![
                "Failed to create temporary file to hold decrypted '"@ + file + "'"@,
            ],
            Stage::Decrypt => if e.code == NO_SECKEY {
                seq!["Could not decrypt '"@ + file + "' to re-encrypt for new recipients."@]
            } else {
                seq![
                    "Could not decrypt '"@ + file + "' to re-encrypt for new recipients."@,
                    "Failed to decrypt data."@,
                ]
            },
            Stage::Encrypt => if e.code == UNUSABLE_PUBKEY {
                Seq::empty()
            } else {
                seq!["Failed to re-encrypt "@ + file + "."@]
            },
            Stage::Open => seq!["Could not open '"@ + file + "' to write encrypted data"@],
            Stage::Write => seq!["Failed to write out encrypted data to '"@ + file + "'"@],
        },
    }
}

/// The remarks under which a failure is passed on, the outermost first,
/// given how far the work had come.
pub open spec fn failure_remarks(
    phase: Phase,
    recipients_file: Seq<char>,
    stage: Stage,
    trouble: Trouble,
) -> Seq<Seq<char>> {
    match phase {
        Phase::SelectingSigner { .. } => seq![signer_remark()],
        Phase::Signing { signer, current, .. } => seq![
            "Could not sign key of recipient "@ + current@ + " with signing key "@
                + signer.label_text(),
        ],
        Phase::WritingRecipients => if stage == Stage::Open {
            seq!["Failed to open recipients at '"@ + recipients_file + "' file for writing"@]
        } else {
            seq!["Failed to write recipients to file at '"@ + recipients_file + "'"@]
        },
        Phase::Reencrypting { current, .. } => reencrypt_remarks(current@, stage, trouble),
        _ => Seq::empty(),
    }
}

/// Whether `phase` is where the work goes on to sign the keys with the
/// fingerprints `imported` with the key `signer`: at the first of them,
/// or at looking up the recipients' keys where there is none to sign.
pub open spec fn signs_from(phase: Phase, signer: Key, imported: Seq<String>) -> bool {
    if imported.len() == 0 {
        phase == Phase::FindingKeys
    } else {
        phase matches Phase::Signing { signer: s, current, rest } && s == signer && current
            == imported[0] && rest@ == imported.skip(1)
    }
}

/// Whether `phase` is where the work goes on to export `keys` to
/// `keys_dir`: at the first of them, or at reading the recipients file
/// where there is no such directory or no key.
pub open spec fn exports_from(phase: Phase, keys_dir: Option<String>, keys: Seq<Key>) -> bool {
    match keys_dir {
        Some(dir) => if keys.len() == 0 {
            phase == Phase::ReadingRecipients
        } else {
            phase matches Phase::Exporting { keys_dir: d, current, rest } && d == dir && current
                == keys[0] && rest@ == keys.skip(1)
        },
        None => phase == Phase::ReadingRecipients,
    }
}

/// Whether `phase` is where the work goes on to encrypt anew the files
/// that were listed as `files`: at the first of them in ascending order,
/// with the others to follow in that order, or at the end where there is
/// none.
pub open spec fn reencrypts_from(phase: Phase, files: Seq<Seq<char>>) -> bool {
    match phase {
        Phase::Finished => files.len() == 0,
        Phase::Reencrypting { current, rest } => is_normal_form_of(
            texts(seq![current] + rest@),
            files,
        ),
        _ => false,
    }
}

/// Whether `phase` is a failure with this root and these remarks.
pub open spec fn fails_with(phase: Phase, root: Fail, remarks: Seq<Seq<char>>) -> bool {
    phase matches Phase::Failed(e) && e.root == root && texts(e.contexts@) == remarks
}

/// Whether `phase` is the failure to find the key to sign with among
/// `keys`, which `key_id` was to stand for: none where a key was named,
/// otherwise not exactly one.
pub open spec fn fails_to_select(phase: Phase, key_id: Option<String>, keys: Vec<Key>) -> bool {
    phase matches Phase::Failed(e) && texts(e.contexts@) == seq![signer_remark()] && (
    if keys@.len() == 0 && key_id.is_some() {
        e.root == (Fail::NoSigningKey { key_id: key_id.unwrap() })
    } else {
        e.root == (Fail::AmbiguousSigningKey { candidates: keys })
    })
}

/// Whether `phase` is the failure to accept `keys` for the recipients
/// called `key_ids`, where the keys are signed as `sign` says.
pub open spec fn rejects_keys(
    phase: Phase,
    change: Change,
    key_ids: Seq<String>,
    sign: SigningMode,
    keys: Vec<Key>,
    truncated: bool,
) -> bool {
    phase matches Phase::Failed(e) && e.contexts@.len() == 0 && (if truncated {
        e.root == Fail::KeylistTruncated
    } else if keys@.len() > key_ids.len() {
        e.root == (Fail::AmbiguousKeyId { matches: keys })
    } else if keys@.len() < key_ids.len() {
        e.root == (Fail::ViableKeys { found: keys, requested: key_ids.len() as usize })
    } else if !all_fingerprints(fingerprints(keys@)) {
        reports_bad_fingerprint(e.root, fingerprints(keys@))
    } else {
        e.root matches Fail::Encryption(EncryptionError { cause }) && cause.code
            == UNUSABLE_PUBKEY && cause.description@ == keys_text(untrusted(keys@))
    })
}

/// Whether `root` reports the first text of `list` that is no
/// fingerprint.
pub open spec fn reports_bad_fingerprint(root: Fail, list: Seq<Seq<char>>) -> bool {
    root matches Fail::InvalidFingerprint { text } && exists|at: int|
        is_first_bad_fingerprint(list, at) && text@ == #[trigger] list[at]
}

/// Whether `keys` are accepted for the recipients called `key_ids`: the
/// list is complete, holds as many keys as were asked for, each with a
/// fingerprint, and the keyring trusts each of them, unless the keys are
/// signed or their owners cease to be recipients.
pub open spec fn accepts_keys(
    change: Change,
    key_ids: Seq<String>,
    sign: SigningMode,
    keys: Seq<Key>,
    truncated: bool,
) -> bool {
    !truncated && keys.len() == key_ids.len() && all_fingerprints(fingerprints(keys)) && (change
        == Change::Remove || sign == SigningMode::Public || untrusted(keys).len() == 0)
}

/// The recipients of a vault once recipients with the fingerprints
/// `changing` were added to `existing` or removed from them: all of them
/// together, or those of `existing` that are not among `changing`.
pub open spec fn changed(change: Change, existing: Seq<Seq<char>>, changing: Seq<Seq<char>>) -> Seq<
    Seq<char>,
> {
    match change {
        Change::Add => existing + changing,
        Change::Remove => without(existing, changing),
    }
}

/// What is said of each of `keys` once its owner became a recipient, or
/// ceased to be one.
pub open spec fn changed_notices(change: Change, keys: Seq<Key>) -> Seq<Notice> {
    match change {
        Change::Add => keys.map_values(|key: Key| Notice::AddedRecipient { key }),
        Change::Remove => keys.map_values(|key: Key| Notice::RemovedRecipient { key }),
    }
}

impl RecipientsChange {
    /// Whether `self` and `other` are the same work, whatever they have
    /// come to.
    pub open spec fn same_task(self, other: RecipientsChange) -> bool {
        &&& self.change == other.change
        &&& self.key_ids == other.key_ids
        &&& self.sign == other.sign
        &&& self.signing_key_id == other.signing_key_id
        &&& self.keys_dir == other.keys_dir
        &&& self.recipients_file == other.recipients_file
        &&& self.secrets_dir == other.secrets_dir
    }

    /// Whether `next` is what the work asks for as it stands.
    pub open spec fn asks(self, next: Next) -> bool {
        match self.phase {
            Phase::Importing { keys_dir } => (next matches Next::Do(
                Request::ImportKeys { keys_dir: dir, key_ids },
            ) && dir == keys_dir && key_ids@ == self.key_ids@),
            Phase::SelectingSigner { .. } => next == Next::Do(
                Request::FindSigningKeys { key_id: self.signing_key_id },
            ),
            Phase::Signing { signer, current, .. } => next == Next::Do(
                Request::SignKey { fingerprint: current, signer },
            ),
            Phase::FindingKeys => (next matches Next::Do(Request::FindKeys { key_ids })
                && key_ids@ == self.key_ids@),
            Phase::Exporting { keys_dir, current, .. } => next == Next::Do(
                Request::ExportKey { keys_dir, key: current },
            ),
            Phase::ReadingRecipients => next == Next::Do(
                Request::ReadRecipients { file: self.recipients_file },
            ),
            Phase::WritingRecipients => (next matches Next::Do(
                Request::WriteRecipients { file, contents },
            ) && file == self.recipients_file && contents@ == lines_text(
                texts(self.recipients@),
            )),
            Phase::Listing => next == Next::Do(
                Request::ListSecrets { secrets_dir: self.secrets_dir },
            ),
            Phase::Reencrypting { current, .. } => (next matches Next::Do(
                Request::Reencrypt { secrets_dir, file, recipients },
            ) && secrets_dir == self.secrets_dir && file == current && recipients@
                == self.recipients@),
            Phase::Finished => next == Next::Done,
            Phase::Failed(_) => next == Next::Fail,
        }
    }

    /// Whether `after`, with `notices` to show, is what the work `self`
    /// comes to when `event` is reported.
    ///
    /// A failure ends the work, with `failure_root` under
    /// `failure_remarks`. An answer to what was asked takes the work on;
    /// any other report ends it with `Fail::OutOfTurn`. Work that is over
    /// stays as it is.
    ///
    /// In order, where recipients are added: the keys are imported and,
    /// where the keyring does not trust all of them, the key to sign with
    /// is selected and each key that is not trusted is signed, once and in
    /// ascending order of the fingerprints (all this only where keys are
    /// signed at all); the recipients' keys are looked up and accepted or
    /// not; each is exported (where the vault has a directory for it); the
    /// recipients file is read and written again with the new recipients
    /// in it, in normal form; the secrets are listed, and each is
    /// encrypted anew, in ascending order. Where recipients are removed,
    /// their keys are looked up, the recipients file is read and written
    /// again without them, and each secret is encrypted anew.
    pub open spec fn follows(self, event: Event, after: RecipientsChange, notices: Seq<Notice>) -> bool {
        &&& after.same_task(self)
        &&& after.reencrypted@ == (match (self.phase, event) {
            (Phase::Reencrypting { current, .. }, Event::Reencrypted) => self.reencrypted@.push(
                current,
            ),
            _ => self.reencrypted@,
        })
        &&& match (self.phase, event) {
            (Phase::Finished, _) => after == self && notices.len() == 0,
            (Phase::Failed(_), _) => after == self && notices.len() == 0,
            (phase, Event::Failed { stage, trouble }) => {
                &&& fails_with(
                    after.phase,
                    failure_root(phase, stage, trouble),
                    failure_remarks(phase, self.recipients_file@, stage, trouble),
                )
                &&& after.keys == self.keys
                &&& after.recipients == self.recipients
                &&& notices.len() == 0
            },
            (Phase::Importing { .. }, Event::Imported { keys }) => {
                &&& if untrusted(keys@).len() == 0 {
                    after.phase == Phase::FindingKeys
                } else {
                    after.phase matches Phase::SelectingSigner { imported } && is_normal_form_of(
                        texts(imported@),
                        fingerprints(untrusted(keys@)),
                    )
                }
                &&& after.keys == self.keys
                &&& after.recipients == self.recipients
                &&& notices.len() == 0
            },
            (Phase::SelectingSigner { imported }, Event::SigningKeys { keys }) => {
                &&& if keys@.len() == 1 {
                    signs_from(after.phase, keys@[0], imported@)
                } else {
                    fails_to_select(after.phase, self.signing_key_id, keys)
                }
                &&& after.keys == self.keys
                &&& after.recipients == self.recipients
                &&& notices.len() == 0
            },
            (Phase::Signing { signer, rest, .. }, Event::Signed { key }) => {
                &&& signs_from(after.phase, signer, rest@)
                &&& after.keys == self.keys
                &&& after.recipients == self.recipients
                &&& notices == seq![Notice::SignedKey { key, signer }]
            },
            (Phase::FindingKeys, Event::Keys { keys, truncated }) => {
                &&& if accepts_keys(self.change, self.key_ids@, self.sign, keys@, truncated) {
                    after.keys == keys && match self.change {
                        Change::Add => exports_from(after.phase, self.keys_dir, keys@),
                        Change::Remove => after.phase == Phase::ReadingRecipients,
                    }
                } else {
                    after.keys == self.keys && rejects_keys(
                        after.phase,
                        self.change,
                        self.key_ids@,
                        self.sign,
                        keys,
                        truncated,
                    )
                }
                &&& after.recipients == self.recipients
                &&& notices.len() == 0
            },
            (Phase::Exporting { keys_dir, current, rest }, Event::Exported) => {
                &&& exports_from(after.phase, Some(keys_dir), rest@)
                &&& after.keys == self.keys
                &&& after.recipients == self.recipients
                &&& notices == seq![Notice::ExportedKey { key: current }]
            },
            (Phase::ReadingRecipients, Event::Recipients { recipients }) => {
                &&& after.keys == self.keys
                &&& if all_fingerprints(texts(recipients@)) {
                    &&& after.phase == Phase::WritingRecipients
                    &&& is_normal_form_of(
                        texts(after.recipients@),
                        changed(self.change, texts(recipients@), fingerprints(self.keys@)),
                    )
                    &&& notices == changed_notices(self.change, self.keys@)
                } else {
                    &&& after.phase matches Phase::Failed(e)
                    &&& e.contexts@.len() == 0
                    &&& reports_bad_fingerprint(e.root, texts(recipients@))
                    &&& after.recipients == self.recipients
                    &&& notices.len() == 0
                }
            },
            (Phase::WritingRecipients, Event::Written) => {
                &&& after.phase == Phase::Listing
                &&& after.keys == self.keys
                &&& after.recipients == self.recipients
                &&& notices.len() == 0
            },
            (Phase::Listing, Event::Secrets { files }) => {
                &&& reencrypts_from(after.phase, texts(files@))
                &&& after.keys == self.keys
                &&& after.recipients == self.recipients
                &&& notices.len() == 0
            },
            (Phase::Reencrypting { current, rest }, Event::Reencrypted) => {
                &&& if rest@.len() == 0 {
                    after.phase == Phase::Finished
                } else {
                    after.phase matches Phase::Reencrypting { current: c, rest: r } && c == rest@[0]
                        && r@ == rest@.skip(1)
                }
                &&& after.keys == self.keys
                &&& after.recipients == self.recipients
                &&& notices == seq![Notice::Reencrypted { file: current }]
            },
            (_, _) => {
                &&& fails_with(after.phase, Fail::OutOfTurn, Seq::empty())
                &&& after.keys == self.keys
                &&& after.recipients == self.recipients
                &&& notices.len() == 0
            },
        }
    }
}

/// A failure with its remarks, the outermost first.
fn remarked(root: Fail, outer: String) -> (r: Error)
    ensures
        r.root == root,
        texts(r.contexts@) == seq![outer@],
{
    let r = Error::new(root).context(outer);
    proof {
        assert(texts(r.contexts@) =~= seq![outer@]);
    }
    r
}

fn reencrypt_failure(file: &String, stage: Stage, trouble: Trouble) -> (r: Error)
    ensures
        r.root == reencrypt_root(*file, stage, trouble),
        texts(r.contexts@) == reencrypt_remarks(file@, stage, trouble),
{
    let remark = match stage {
        Stage::Temp => join3(
            "Failed to create temporary file to hold decrypted '",
            file.as_str(),
            "'",
        ),
        Stage::Decrypt => join3(
            "Could not decrypt '",
            file.as_str(),
            "' to re-encrypt for new recipients.",
        ),
        Stage::Encrypt => join3("Failed to re-encrypt ", file.as_str(), "."),
        Stage::Open => join3("Could not open '", file.as_str(), "' to write encrypted data"),
        Stage::Write => join3("Failed to write out encrypted data to '", file.as_str(), "'"),
    };
    match trouble {
        Trouble::Io { description, missing } => {
            if missing {
                let r = Error::new(Fail::RaceDuringReencrypt { file: file.clone() });
                proof {
                    assert(texts(r.contexts@) =~= Seq::<Seq<char>>::empty());
                }
                r
            } else {
                remarked(Fail::Io(description), remark)
            }
        },
        Trouble::Engine(e) => {
            match stage {
                Stage::Decrypt => {
                    if e.code == NO_SECKEY {
                        remarked(Fail::Decryption(DecryptionError { cause: e }), remark)
                    } else {
                        let inner = String::from_str("Failed to decrypt data.");
                        let r = Error::new(Fail::Engine(e)).context(inner).context(remark);
                        proof {
                            assert(texts(r.contexts@) =~= seq![remark@, inner@]);
                        }
                        r
                    }
                },
                Stage::Encrypt => {
                    let r = EncryptionError::caused_by(e, remark);
                    proof {
                        if e.code == UNUSABLE_PUBKEY {
                            assert(texts(r.contexts@) =~= Seq::<Seq<char>>::empty());
                        } else {
                            assert(texts(r.contexts@) =~= seq![remark@]);
                        }
                    }
                    r
                },
                _ => remarked(Fail::Engine(e), remark),
            }
        },
    }
}

/// The failure that a piece of work ends in, given how far the work had
/// come.
fn failure(phase: &Phase, recipients_file: &String, stage: Stage, trouble: Trouble) -> (r: Error)
    ensures
        r.root == failure_root(*phase, stage, trouble),
        texts(r.contexts@) == failure_remarks(*phase, recipients_file@, stage, trouble),
{
    match phase {
        Phase::Reencrypting { current, .. } => reencrypt_failure(current, stage, trouble),
        _ => {
            let root = match trouble {
                Trouble::Io { description, .. } => Fail::Io(description),
                Trouble::Engine(e) => Fail::Engine(e),
            };
            match phase {
                Phase::SelectingSigner { .. } => remarked(
                    root,
                    String::from_str(
                        "Did not manage to find suitable signing key for re-exporting the recipient keys.",
                    ),
                ),
                Phase::Signing { signer, current, .. } => {
                    let label = signer.label();
                    let mut remark = join3(
                        "Could not sign key of recipient ",
                        current.as_str(),
                        " with signing key ",
                    );
                    remark.append(label.as_str());
                    remarked(root, remark)
                },
                Phase::WritingRecipients => {
                    match stage {
                        Stage::Open => remarked(
                            root,
                            join3(
                                "Failed to open recipients at '",
                                recipients_file.as_str(),
                                "' file for writing",
                            ),
                        ),
                        _ => remarked(
                            root,
                            join3(
                                "Failed to write recipients to file at '",
                                recipients_file.as_str(),
                                "'",
                            ),
                        ),
                    }
                },
                _ => {
                    let r = Error::new(root);
                    proof {
                        assert(texts(r.contexts@) =~= Seq::<Seq<char>>::empty());
                    }
                    r
                },
            }
        },
    }
}

/// Where the work goes on to sign the keys with the fingerprints
/// `imported`.
fn signing(signer: Key, imported: Vec<String>) -> (r: Phase)
    ensures
        signs_from(r, signer, imported@),
{
    if imported.len() == 0 {
        Phase::FindingKeys
    } else {
        let mut rest = imported;
        let current = rest.remove(0);
        proof {
            assert(rest@ =~= imported@.skip(1));
        }
        Phase::Signing { signer, current, rest }
    }
}

/// Where the work goes on to export `keys`.
fn exporting(keys_dir: Option<String>, keys: Vec<Key>) -> (r: Phase)
    ensures
        exports_from(r, keys_dir, keys@),
{
    match keys_dir {
        Some(dir) => {
            if keys.len() == 0 {
                Phase::ReadingRecipients
            } else {
                let mut rest = keys;
                let current = rest.remove(0);
                proof {
                    assert(rest@ =~= keys@.skip(1));
                }
                Phase::Exporting { keys_dir: dir, current, rest }
            }
        },
        None => Phase::ReadingRecipients,
    }
}

/// Where the work goes on to encrypt `files` anew.
fn reencrypting(files: &Vec<String>) -> (r: Phase)
    ensures
        reencrypts_from(r, texts(files@)),
{
    let mut rest = normalize_recipients(files);
    if rest.len() == 0 {
        proof {
            if files@.len() > 0 {
                assert(texts(files@)[0] == files@[0]@);
                assert(texts(files@).to_set().contains(files@[0]@));
                assert(texts(rest@).contains(files@[0]@));
            }
        }
        Phase::Finished
    } else {
        let ghost sorted = rest@;
        let current = rest.remove(0);
        proof {
            assert(seq![current] + rest@ =~= sorted);
        }
        Phase::Reencrypting { current, rest }
    }
}

/// The fingerprints of some keys.
fn fingerprints_of(keys: &Vec<Key>) -> (r: Vec<String>)
    ensures
        texts(r@) == fingerprints(keys@),
{
    let mut r: Vec<String> = Vec::new();
    let mut i: usize = 0;
    while i < keys.len()
        invariant
            i <= keys.len(),
            texts(r@) == fingerprints(keys@.take(i as int)),
        decreases keys.len() - i,
    {
        let ghost before = r@;
        r.push(keys[i].fingerprint.clone());
        proof {
            assert(keys@.take(i + 1) =~= keys@.take(i as int).push(keys@[i as int]));
            assert(fingerprints(keys@.take(i as int).push(keys@[i as int])) =~= fingerprints(
                keys@.take(i as int),
            ).push(keys@[i as int].fingerprint@));
            assert(texts(r@) =~= texts(before).push(keys@[i as int].fingerprint@));
        }
        i += 1;
    }
    proof {
        assert(keys@.take(keys.len() as int) =~= keys@);
    }
    r
}

/// The keys among `keys` that the keyring does not trust.
fn untrusted_keys(keys: &Vec<Key>) -> (r: Vec<Key>)
    ensures
        r@ == untrusted(keys@),
{
    let mut r: Vec<Key> = Vec::new();
    let mut i: usize = 0;
    proof {
        reveal(Seq::filter);
        assert(keys@.take(0) =~= Seq::<Key>::empty());
        assert(r@ =~= untrusted(keys@.take(0)));
    }
    while i < keys.len()
        invariant
            i <= keys.len(),
            r@ == untrusted(keys@.take(i as int)),
        decreases keys.len() - i,
    {
        proof {
            let head = keys@.take(i as int);
            assert(keys@.take(i + 1) =~= head.push(keys@[i as int]));
            head.lemma_filter_push(keys@[i as int], |key: Key| !key.trusted);
        }
        if !keys[i].trusted {
            r.push(keys[i].clone());
        }
        i += 1;
    }
    proof {
        assert(keys@.take(keys.len() as int) =~= keys@);
    }
    r
}

impl RecipientsChange {
    /// What the work asks for as it stands.
    pub fn pending(&self) -> (next: Next)
        ensures
            self.asks(next),
    {
        match &self.phase {
            Phase::Importing { keys_dir } => Next::Do(
                Request::ImportKeys {
                    keys_dir: keys_dir.clone(),
                    key_ids: copy_texts(&self.key_ids),
                },
            ),
            Phase::SelectingSigner { .. } => Next::Do(
                Request::FindSigningKeys { key_id: copy_optional_text(&self.signing_key_id) },
            ),
            Phase::Signing { signer, current, .. } => Next::Do(
                Request::SignKey { fingerprint: current.clone(), signer: signer.clone() },
            ),
            Phase::FindingKeys => Next::Do(
                Request::FindKeys { key_ids: copy_texts(&self.key_ids) },
            ),
            Phase::Exporting { keys_dir, current, .. } => Next::Do(
                Request::ExportKey { keys_dir: keys_dir.clone(), key: current.clone() },
            ),
            Phase::ReadingRecipients => Next::Do(
                Request::ReadRecipients { file: self.recipients_file.clone() },
            ),
            Phase::WritingRecipients => Next::Do(
                Request::WriteRecipients {
                    file: self.recipients_file.clone(),
                    contents: lines_of(&self.recipients),
                },
            ),
            Phase::Listing => Next::Do(
                Request::ListSecrets { secrets_dir: self.secrets_dir.clone() },
            ),
            Phase::Reencrypting { current, .. } => Next::Do(
                Request::Reencrypt {
                    secrets_dir: self.secrets_dir.clone(),
                    file: current.clone(),
                    recipients: copy_texts(&self.recipients),
                },
            ),
            Phase::Finished => Next::Done,
            Phase::Failed(_) => Next::Fail,
        }
    }

    /// How the work ended: `None` while it is not over.
    pub fn outcome(self) -> (r: Option<Result<(), Error>>)
        ensures
            match self.phase {
                Phase::Finished => r == Some(Ok::<(), Error>(())),
                Phase::Failed(e) => r == Some(Err::<(), Error>(e)),
                _ => r.is_none(),
            },
    {
        match self.phase {
            Phase::Finished => Some(Ok(())),
            Phase::Failed(e) => Some(Err(e)),
            _ => None,
        }
    }
}

/// The recipients of a vault with those that `keys` stand for, in normal
/// form.
fn with_recipients(existing: Vec<String>, keys: &Vec<Key>) -> (r: Vec<String>)
    ensures
        is_normal_form_of(texts(r@), texts(existing@) + fingerprints(keys@)),
{
    let mut all = existing;
    let mut i: usize = 0;
    proof {
        assert(keys@.take(0) =~= Seq::<Key>::empty());
        assert(texts(all@) =~= texts(existing@) + fingerprints(keys@.take(0)));
    }
    while i < keys.len()
        invariant
            i <= keys.len(),
            texts(all@) == texts(existing@) + fingerprints(keys@.take(i as int)),
        decreases keys.len() - i,
    {
        let ghost before = all@;
        all.push(keys[i].fingerprint.clone());
        proof {
            assert(keys@.take(i + 1) =~= keys@.take(i as int).push(keys@[i as int]));
            assert(texts(all@) =~= texts(before).push(keys@[i as int].fingerprint@));
            assert(fingerprints(keys@.take(i + 1)) =~= fingerprints(keys@.take(i as int)).push(
                keys@[i as int].fingerprint@,
            ));
        }
        i += 1;
    }
    proof {
        assert(keys@.take(keys.len() as int) =~= keys@);
    }
    normalize_recipients(&all)
}

/// What is said of the recipients that `keys` stand for: that each was
/// added.
fn added_recipients(keys: &Vec<Key>) -> (notices: Vec<Notice>)
    ensures
        notices@ == keys@.map_values(|key: Key| Notice::AddedRecipient { key }),
{
    let mut notices: Vec<Notice> = Vec::new();
    let mut i: usize = 0;
    while i < keys.len()
        invariant
            i <= keys.len(),
            notices@ == keys@.take(i as int).map_values(|key: Key| Notice::AddedRecipient { key }),
        decreases keys.len() - i,
    {
        notices.push(Notice::AddedRecipient { key: keys[i].clone() });
        proof {
            assert(keys@.take(i + 1) =~= keys@.take(i as int).push(keys@[i as int]));
        }
        i += 1;
    }
    proof {
        assert(keys@.take(keys.len() as int) =~= keys@);
    }
    notices
}

/// What is said of the recipients that `keys` stand for: that each was
/// removed.
fn removed_recipients(keys: &Vec<Key>) -> (notices: Vec<Notice>)
    ensures
        notices@ == keys@.map_values(|key: Key| Notice::RemovedRecipient { key }),
{
    let mut notices: Vec<Notice> = Vec::new();
    let mut i: usize = 0;
    while i < keys.len()
        invariant
            i <= keys.len(),
            notices@ == keys@.take(i as int).map_values(
                |key: Key| Notice::RemovedRecipient { key },
            ),
        decreases keys.len() - i,
    {
        notices.push(Notice::RemovedRecipient { key: keys[i].clone() });
        proof {
            assert(keys@.take(i + 1) =~= keys@.take(i as int).push(keys@[i as int]));
        }
        i += 1;
    }
    proof {
        assert(keys@.take(keys.len() as int) =~= keys@);
    }
    notices
}

/// Where the work goes on once keys were imported.
fn after_import(imported: &Vec<Key>) -> (r: Phase)
    ensures
        if untrusted(imported@).len() == 0 {
            r == Phase::FindingKeys
        } else {
            r matches Phase::SelectingSigner { imported: unsigned } && is_normal_form_of(
                texts(unsigned@),
                fingerprints(untrusted(imported@)),
            )
        },
{
    let unsigned = untrusted_keys(imported);
    if unsigned.len() == 0 {
        Phase::FindingKeys
    } else {
        let listed = fingerprints_of(&unsigned);
        Phase::SelectingSigner { imported: normalize_recipients(&listed) }
    }
}

/// The end of work that was told of something it had not asked for.
fn out_of_turn() -> (r: Phase)
    ensures
        fails_with(r, Fail::OutOfTurn, Seq::empty()),
{
    let e = Error::new(Fail::OutOfTurn);
    proof {
        assert(texts(e.contexts@) =~= Seq::<Seq<char>>::empty());
    }
    Phase::Failed(e)
}

/// Where the work goes on once the secret keys `found` were listed for
/// the key to sign with.
fn select_signer(key_id: &Option<String>, found: Vec<Key>, imported: Vec<String>) -> (r: Phase)
    ensures
        if found@.len() == 1 {
            signs_from(r, found@[0], imported@)
        } else {
            fails_to_select(r, *key_id, found)
        },
{
    if found.len() == 1 {
        signing(found[0].clone(), imported)
    } else {
        let unnamed = match copy_optional_text(key_id) {
            Some(id) => {
                if found.len() == 0 {
                    Some(id)
                } else {
                    None
                }
            },
            None => None,
        };
        let root = match unnamed {
            Some(id) => Fail::NoSigningKey { key_id: id },
            None => Fail::AmbiguousSigningKey { candidates: found },
        };
        Phase::Failed(
            remarked(
                root,
                String::from_str(
                    "Did not manage to find suitable signing key for re-exporting the recipient keys.",
                ),
            ),
        )
    }
}

/// The failure to accept the keys `found`, if they are not accepted.
fn refuse_keys(
    change: Change,
    key_ids: &Vec<String>,
    sign: SigningMode,
    found: Vec<Key>,
    truncated: bool,
) -> (r: Result<Vec<Key>, Phase>)
    ensures
        match r {
            Ok(keys) => accepts_keys(change, key_ids@, sign, found@, truncated) && keys == found,
            Err(phase) => !accepts_keys(change, key_ids@, sign, found@, truncated) && rejects_keys(
                phase,
                change,
                key_ids@,
                sign,
                found,
                truncated,
            ),
        },
{
    if truncated {
        return Err(Phase::Failed(Error::new(Fail::KeylistTruncated)));
    }
    if found.len() > key_ids.len() {
        return Err(Phase::Failed(Error::new(Fail::AmbiguousKeyId { matches: found })));
    }
    if found.len() < key_ids.len() {
        let requested = key_ids.len();
        return Err(Phase::Failed(Error::new(Fail::ViableKeys { found, requested })));
    }
    match first_bad_key(&found) {
        Some(at) => {
            let text = found[at].fingerprint.clone();
            proof {
                assert(fingerprints(found@)[at as int] == text@);
            }
            return Err(Phase::Failed(Error::new(Fail::InvalidFingerprint { text })));
        },
        None => {},
    }
    match change {
        Change::Remove => {
            return Ok(found);
        },
        Change::Add => {},
    }
    match sign {
        SigningMode::Public => Ok(found),
        SigningMode::Verified => {
            let bad = untrusted_keys(&found);
            if bad.len() == 0 {
                Ok(found)
            } else {
                let description = keys_label(&bad);
                Err(
                    Phase::Failed(
                        Error::new(
                            Fail::Encryption(
                                EncryptionError {
                                    cause: EngineError { code: UNUSABLE_PUBKEY, description },
                                },
                            ),
                        ),
                    ),
                )
            }
        },
    }
}

impl RecipientsChange {
    /// Takes the work on by what was reported: see `follows`.
    pub fn step(self, event: Event) -> (r: (RecipientsChange, Vec<Notice>))
        ensures
            self.follows(event, r.0, r.1@),
    {
        let RecipientsChange {
            change,
            key_ids,
            sign,
            signing_key_id,
            keys_dir,
            recipients_file,
            secrets_dir,
            keys,
            recipients,
            reencrypted,
            phase,
        } = self;
        let mut notices: Vec<Notice> = Vec::new();
        let mut keys = keys;
        let mut recipients = recipients;
        let mut reencrypted = reencrypted;
        let phase = match phase {
            Phase::Finished => Phase::Finished,
            Phase::Failed(e) => Phase::Failed(e),
            running => match event {
                Event::Failed { stage, trouble } => Phase::Failed(
                    failure(&running, &recipients_file, stage, trouble),
                ),
                answer => match running {
                    Phase::Importing { .. } => match answer {
                        Event::Imported { keys: imported } => after_import(&imported),
                        _ => out_of_turn(),
                    },
                    Phase::SelectingSigner { imported } => match answer {
                        Event::SigningKeys { keys: found } => select_signer(
                            &signing_key_id,
                            found,
                            imported,
                        ),
                        _ => out_of_turn(),
                    },
                    Phase::Signing { signer, current, rest } => match answer {
                        Event::Signed { key } => {
                            notices.push(Notice::SignedKey { key, signer: signer.clone() });
                            signing(signer, rest)
                        },
                        _ => out_of_turn(),
                    },
                    Phase::FindingKeys => match answer {
                        Event::Keys { keys: found, truncated } => {
                            match refuse_keys(change, &key_ids, sign, found, truncated) {
                                Ok(found) => {
                                    let phase = match change {
                                        Change::Add => exporting(
                                            copy_optional_text(&keys_dir),
                                            copy_keys(&found),
                                        ),
                                        Change::Remove => Phase::ReadingRecipients,
                                    };
                                    keys = found;
                                    phase
                                },
                                Err(phase) => phase,
                            }
                        },
                        _ => out_of_turn(),
                    },
                    Phase::Exporting { keys_dir: dir, current, rest } => match answer {
                        Event::Exported => {
                            notices.push(Notice::ExportedKey { key: current });
                            exporting(Some(dir), rest)
                        },
                        _ => out_of_turn(),
                    },
                    Phase::ReadingRecipients => match answer {
                        Event::Recipients { recipients: existing } => {
                            match first_bad_fingerprint(&existing) {
                                Some(at) => {
                                    let text = existing[at].clone();
                                    proof {
                                        assert(texts(existing@)[at as int] == text@);
                                    }
                                    Phase::Failed(Error::new(Fail::InvalidFingerprint { text }))
                                },
                                None => {
                                    match change {
                                        Change::Add => {
                                            recipients = with_recipients(existing, &keys);
                                            notices = added_recipients(&keys);
                                        },
                                        Change::Remove => {
                                            let removed = fingerprints_of(&keys);
                                            recipients = without_recipients(&existing, &removed);
                                            notices = removed_recipients(&keys);
                                        },
                                    }
                                    Phase::WritingRecipients
                                },
                            }
                        },
                        _ => out_of_turn(),
                    },
                    Phase::WritingRecipients => match answer {
                        Event::Written => Phase::Listing,
                        _ => out_of_turn(),
                    },
                    Phase::Listing => match answer {
                        Event::Secrets { files } => reencrypting(&files),
                        _ => out_of_turn(),
                    },
                    Phase::Reencrypting { current, rest } => match answer {
                        Event::Reencrypted => {
                            reencrypted.push(current.clone());
                            notices.push(Notice::Reencrypted { file: current });
                            if rest.len() == 0 {
                                Phase::Finished
                            } else {
                                let mut rest = rest;
                                let ghost all = rest@;
                                let next = rest.remove(0);
                                proof {
                                    assert(rest@ =~= all.skip(1));
                                }
                                Phase::Reencrypting { current: next, rest }
                            }
                        },
                        _ => out_of_turn(),
                    },
                    Phase::Finished => Phase::Finished,
                    Phase::Failed(e) => Phase::Failed(e),
                },
            },
        };
        (
            RecipientsChange {
                change,
                key_ids,
                sign,
                signing_key_id,
                keys_dir,
                recipients_file,
                secrets_dir,
                keys,
                recipients,
                reencrypted,
                phase,
            },
            notices,
        )
    }
}

impl Vault {
    /// Whether `work` is the work of adding the recipients called
    /// `key_ids` to this vault, at its beginning: with the vault's paths
    /// as seen from its configuration file, no key found and no recipient
    /// read yet. Where keys are signed, it begins with importing them,
    /// which takes a directory of public keys: without one it has failed.
    /// Otherwise it begins with looking up the keys.
    pub open spec fn begins(
        self,
        key_ids: Seq<String>,
        sign: SigningMode,
        signing_key_id: Option<&str>,
        work: RecipientsChange,
    ) -> bool {
        &&& work.change == Change::Add
        &&& work.key_ids@ == key_ids
        &&& work.sign == sign
        &&& match signing_key_id {
            Some(id) => (work.signing_key_id matches Some(s) && s@ == id@),
            None => work.signing_key_id.is_none(),
        }
        &&& match self.gpg_keys_dir {
            Some(dir) => (work.keys_dir matches Some(d) && d@ == self.absolute_text(dir@)),
            None => work.keys_dir.is_none(),
        }
        &&& work.recipients_file@ == self.absolute_text(self.recipients_file@)
        &&& work.secrets_dir@ == self.absolute_text(self.secrets_dir@)
        &&& work.keys@.len() == 0
        &&& work.recipients@.len() == 0
        &&& work.reencrypted@.len() == 0
        &&& match sign {
            SigningMode::Public => match work.keys_dir {
                Some(dir) => work.phase == (Phase::Importing { keys_dir: dir }),
                None => fails_with(work.phase, Fail::KeysDirRequired, Seq::empty()),
            },
            SigningMode::Verified => work.phase == Phase::FindingKeys,
        }
    }

    /// Begins the work of adding the recipients called `gpg_key_ids` to
    /// this vault: see `begins`. `RecipientsChange::pending` says what is to
    /// be done first.
    pub fn add_recipients(
        &self,
        gpg_key_ids: &[String],
        sign: SigningMode,
        signing_key_id: Option<&str>,
    ) -> (work: RecipientsChange)
        ensures
            self.begins(gpg_key_ids@, sign, signing_key_id, work),
    {
        let key_ids = texts_of(gpg_key_ids);
        let keys_dir = match &self.gpg_keys_dir {
            Some(dir) => Some(self.absolute_path(dir.as_str())),
            None => None,
        };
        let phase = match sign {
            SigningMode::Public => match &keys_dir {
                Some(dir) => Phase::Importing { keys_dir: dir.clone() },
                None => {
                    let e = Error::new(Fail::KeysDirRequired);
                    proof {
                        assert(texts(e.contexts@) =~= Seq::<Seq<char>>::empty());
                    }
                    Phase::Failed(e)
                },
            },
            SigningMode::Verified => Phase::FindingKeys,
        };
        RecipientsChange {
            change: Change::Add,
            key_ids,
            sign,
            signing_key_id: match signing_key_id {
                Some(id) => Some(id.to_owned()),
                None => None,
            },
            keys_dir,
            recipients_file: self.absolute_path(self.recipients_file.as_str()),
            secrets_dir: self.absolute_path(self.secrets_dir.as_str()),
            keys: Vec::new(),
            recipients: Vec::new(),
            reencrypted: Vec::new(),
            phase,
        }
    }

    /// Whether `work` is the work of removing the recipients called
    /// `key_ids` from this vault, at its beginning: with the vault's
    /// paths as seen from its configuration file, no key found and no
    /// recipient read yet. No key is signed for it. It begins with
    /// looking up the keys.
    pub open spec fn begins_removal(self, key_ids: Seq<String>, work: RecipientsChange) -> bool {
        &&& work.change == Change::Remove
        &&& work.key_ids@ == key_ids
        &&& work.sign == SigningMode::Verified
        &&& work.signing_key_id.is_none()
        &&& match self.gpg_keys_dir {
            Some(dir) => (work.keys_dir matches Some(d) && d@ == self.absolute_text(dir@)),
            None => work.keys_dir.is_none(),
        }
        &&& work.recipients_file@ == self.absolute_text(self.recipients_file@)
        &&& work.secrets_dir@ == self.absolute_text(self.secrets_dir@)
        &&& work.keys@.len() == 0
        &&& work.recipients@.len() == 0
        &&& work.reencrypted@.len() == 0
        &&& work.phase == Phase::FindingKeys
    }

    /// Begins the work of removing the recipients called `gpg_key_ids`
    /// from this vault: see `begins_removal`. `RecipientsChange::pending`
    /// says what is to be done first.
    pub fn remove_recipients(&self, gpg_key_ids: &[String]) -> (work: RecipientsChange)
        ensures
            self.begins_removal(gpg_key_ids@, work),
    {
        RecipientsChange {
            change: Change::Remove,
            key_ids: texts_of(gpg_key_ids),
            sign: SigningMode::Verified,
            signing_key_id: None,
            keys_dir: match &self.gpg_keys_dir {
                Some(dir) => Some(self.absolute_path(dir.as_str())),
                None => None,
            },
            recipients_file: self.absolute_path(self.recipients_file.as_str()),
            secrets_dir: self.absolute_path(self.secrets_dir.as_str()),
            keys: Vec::new(),
            recipients: Vec::new(),
            reencrypted: Vec::new(),
            phase: Phase::FindingKeys,
        }
    }
}

/// A copy of some texts.
fn texts_of(list: &[String]) -> (r: Vec<String>)
    ensures
        r@ == list@,
{
    let mut r: Vec<String> = Vec::new();
    let mut i: usize = 0;
    while i < list.len()
        invariant
            i <= list.len(),
            r@ == list@.take(i as int),
        decreases list.len() - i,
    {
        r.push(list[i].clone());
        proof {
            assert(r@ =~= list@.take(i + 1));
        }
        i += 1;
    }
    proof {
        assert(list@.take(list.len() as int) =~= list@);
    }
    r
}

impl RecipientsChange {
    /// The secrets of the vault as far as the work knows them: those that
    /// were encrypted anew, the one that is being encrypted, and those
    /// that wait for it.
    pub open spec fn secrets(self) -> Seq<String> {
        self.reencrypted@ + (match self.phase {
            Phase::Reencrypting { current, rest } => seq![current] + rest@,
            _ => Seq::empty(),
        })
    }

    /// What holds of the work at every step:
    /// the secrets are taken in ascending order, each once; keys are
    /// imported and signed only where that was asked for, and neither
    /// signed nor exported where recipients are removed; where recipients
    /// are added and their keys not signed, no key is accepted that the
    /// keyring does not trust; no secret
    /// is encrypted anew before the recipients file was written; the
    /// recipients that the work holds, which is what it writes to the
    /// recipients file, are fingerprints in ascending order, each once;
    /// and each key that was accepted has a fingerprint.
    pub open spec fn is_sound(self) -> bool {
        &&& strictly_sorted(texts(self.secrets()))
        &&& (self.phase is Importing || self.phase is SelectingSigner || self.phase is Signing)
            ==> self.sign == SigningMode::Public
        &&& self.change == Change::Remove ==> !(self.phase is Importing
            || self.phase is SelectingSigner || self.phase is Signing || self.phase is Exporting)
        &&& self.change == Change::Add && self.sign == SigningMode::Verified ==> untrusted(
            self.keys@,
        ).len() == 0
        &&& !(self.phase is Reencrypting || self.phase is Finished || self.phase is Failed)
            ==> self.reencrypted@.len() == 0
        &&& strictly_sorted(texts(self.recipients@))
        &&& all_fingerprints(texts(self.recipients@))
        &&& all_fingerprints(fingerprints(self.keys@))
    }
}

/// Work is sound when it begins.
pub proof fn lemma_sound_at_first(
    vault: Vault,
    key_ids: Seq<String>,
    sign: SigningMode,
    signing_key_id: Option<&str>,
    work: RecipientsChange,
)
    requires
        vault.begins(key_ids, sign, signing_key_id, work) || vault.begins_removal(key_ids, work),
    ensures
        work.is_sound(),
{
    assert(work.secrets() =~= Seq::<String>::empty());
    reveal(Seq::filter);
    assert(work.keys@ =~= Seq::<Key>::empty());
}

/// Work that is sound stays so, whatever is reported.
pub proof fn lemma_stays_sound(
    before: RecipientsChange,
    event: Event,
    after: RecipientsChange,
    notices: Seq<Notice>,
)
    requires
        before.is_sound(),
        before.follows(event, after, notices),
    ensures
        after.is_sound(),
{
    let done = before.reencrypted@;
    match (before.phase, event) {
        (Phase::Finished, _) => {},
        (Phase::Failed(_), _) => {},
        (phase, Event::Failed { .. }) => {
            assert(after.secrets() =~= done);
            assert(before.secrets() =~= done + (before.secrets().skip(done.len() as int)));
            lemma_sorted_beginning(texts(before.secrets()), done.len() as int);
            assert(texts(before.secrets()).take(done.len() as int) =~= texts(done));
        },
        (Phase::Listing, Event::Secrets { files }) => {
            match after.phase {
                Phase::Reencrypting { current, rest } => {
                    assert(after.secrets() =~= seq![current] + rest@);
                },
                _ => {
                    assert(after.secrets() =~= Seq::<String>::empty());
                },
            }
        },
        (Phase::ReadingRecipients, Event::Recipients { recipients }) => {
            assert(after.secrets() =~= done);
            assert(before.secrets() =~= done);
            if all_fingerprints(texts(recipients@)) {
                lemma_changed_are_fingerprints(
                    before.change,
                    texts(recipients@),
                    fingerprints(before.keys@),
                );
                lemma_normal_form_of_fingerprints(
                    texts(after.recipients@),
                    changed(before.change, texts(recipients@), fingerprints(before.keys@)),
                );
            }
        },
        (Phase::Reencrypting { current, rest }, Event::Reencrypted) => {
            assert(before.secrets() =~= done + (seq![current] + rest@));
            if rest@.len() == 0 {
                assert(after.secrets() =~= before.secrets());
            } else {
                assert(after.secrets() =~= before.secrets());
            }
        },
        (_, _) => {
            assert(after.reencrypted@ == done);
            if !(after.phase is Reencrypting) {
                assert(after.secrets() =~= done);
                assert(before.secrets() =~= done + (before.secrets().skip(done.len() as int)));
                lemma_sorted_beginning(texts(before.secrets()), done.len() as int);
                assert(texts(before.secrets()).take(done.len() as int) =~= texts(done));
            }
        },
    }
}

/// The normal form of a list of fingerprints holds fingerprints only.
pub proof fn lemma_normal_form_of_fingerprints(normal: Seq<Seq<char>>, list: Seq<Seq<char>>)
    requires
        is_normal_form_of(normal, list),
        all_fingerprints(list),
    ensures
        all_fingerprints(normal),
{
    assert forall|i: int| 0 <= i < normal.len() implies crate::keys::is_fingerprint(
        #[trigger] normal[i],
    ) by {
        assert(normal.to_set().contains(normal[i]));
        assert(list.contains(normal[i]));
        let j = choose|j: int| 0 <= j < list.len() && list[j] == normal[i];
    }
}

/// The recipients of a vault are fingerprints once recipients were added
/// to them or removed from them, where they were fingerprints before and
/// those that were added are.
pub proof fn lemma_changed_are_fingerprints(
    change: Change,
    existing: Seq<Seq<char>>,
    changing: Seq<Seq<char>>,
)
    requires
        all_fingerprints(existing),
        all_fingerprints(changing),
    ensures
        all_fingerprints(changed(change, existing, changing)),
{
    let list = changed(change, existing, changing);
    assert forall|i: int| 0 <= i < list.len() implies crate::keys::is_fingerprint(
        #[trigger] list[i],
    ) by {
        match change {
            Change::Add => {
                if i < existing.len() {
                    assert(list[i] == existing[i]);
                } else {
                    assert(list[i] == changing[i - existing.len()]);
                }
            },
            Change::Remove => {
                assert(list.contains(list[i]));
                existing.lemma_filter_contains_rev(
                    |text: Seq<char>| !changing.contains(text),
                    list[i],
                );
                let j = choose|j: int| 0 <= j < existing.len() && existing[j] == list[i];
            },
        }
    }
}

/// What is written to the recipients file is the recipients that are to
/// be from now on, in ascending order, each once, and nothing but
/// fingerprints: where the work is sound and is told what the recipients
/// file holds, which are fingerprints, what it asks for next is to write
/// the file, with the normal form of the recipients as they are changed,
/// one recipient to a line. None of those that were to be removed is
/// among them.
pub proof fn lemma_recipients_are_written_in_normal_form(
    before: RecipientsChange,
    recipients: Vec<String>,
    after: RecipientsChange,
    notices: Seq<Notice>,
    next: Next,
)
    requires
        before.is_sound(),
        before.phase == Phase::ReadingRecipients,
        all_fingerprints(texts(recipients@)),
        before.follows(Event::Recipients { recipients }, after, notices),
        after.asks(next),
    ensures
        next matches Next::Do(Request::WriteRecipients { file, contents }) && file
            == before.recipients_file && contents@ == lines_text(
            normal_form(changed(before.change, texts(recipients@), fingerprints(before.keys@))),
        ),
        all_fingerprints(
            normal_form(changed(before.change, texts(recipients@), fingerprints(before.keys@))),
        ),
        before.change == Change::Remove ==> forall|k: int|
            0 <= k < before.keys@.len() ==> !normal_form(
                changed(before.change, texts(recipients@), fingerprints(before.keys@)),
            ).contains(#[trigger] before.keys@[k].fingerprint@),
{
    let removed = fingerprints(before.keys@);
    let list = changed(before.change, texts(recipients@), removed);
    let normal = texts(after.recipients@);
    lemma_is_normal_form(normal, list);
    lemma_changed_are_fingerprints(before.change, texts(recipients@), removed);
    lemma_normal_form_of_fingerprints(normal, list);
    if before.change == Change::Remove {
        assert forall|k: int| 0 <= k < before.keys@.len() implies !normal.contains(
            #[trigger] before.keys@[k].fingerprint@,
        ) by {
            let gone = before.keys@[k].fingerprint@;
            assert(removed[k] == gone);
            if normal.contains(gone) {
                assert(normal.to_set().contains(gone));
                assert(list.contains(gone));
                let keep = |text: Seq<char>| !removed.contains(text);
                texts(recipients@).lemma_filter_contains_rev(keep, gone);
                assert(removed.contains(gone));
            }
        }
    }
}

/// The beginning of a list that is in order is in order.
pub proof fn lemma_sorted_beginning(list: Seq<Seq<char>>, n: int)
    requires
        strictly_sorted(list),
        0 <= n <= list.len(),
    ensures
        strictly_sorted(list.take(n)),
{
    assert forall|i: int, j: int| 0 <= i < j < list.take(n).len() implies crate::text::text_lt(
        #[trigger] list.take(n)[i],
        #[trigger] list.take(n)[j],
    ) by {
        assert(list.take(n)[i] == list[i]);
        assert(list.take(n)[j] == list[j]);
    }
}

/// Whether `after` is what the work `before` comes to when it is told
/// which secrets there are.
pub open spec fn lists_secrets(before: RecipientsChange, files: Vec<String>, after: RecipientsChange) -> bool {
    exists|notices: Seq<Notice>| #[trigger] before.follows(Event::Secrets { files }, after, notices)
}

/// Whether `after` is what the work `before` comes to when it is told
/// that a secret was encrypted anew.
pub open spec fn reencrypts_one(before: RecipientsChange, after: RecipientsChange) -> bool {
    exists|notices: Seq<Notice>| #[trigger] before.follows(Event::Reencrypted, after, notices)
}

/// Where the secrets `files` were listed and each piece of work went
/// well up to the end, the secrets that were encrypted anew are those
/// that were listed, each once, in ascending order. `run` holds what the
/// work came to after each report: the list of secrets first, then the
/// success of each piece of work.
pub proof fn lemma_every_secret_is_reencrypted(run: Seq<RecipientsChange>, files: Vec<String>)
    requires
        run.len() >= 2,
        run[0].phase == Phase::Listing,
        run[0].reencrypted@.len() == 0,
        lists_secrets(run[0], files, run[1]),
        forall|k: int| 1 <= k < run.len() - 1 ==> reencrypts_one(#[trigger] run[k], run[k + 1]),
        run.last().phase == Phase::Finished,
    ensures
        is_normal_form_of(texts(run.last().reencrypted@), texts(files@)),
{
    lemma_secrets_kept(run, files, run.len() - 1);
    assert(run.last().secrets() =~= run.last().reencrypted@);
}

/// In such a run, the secrets that the work knows are at each step those
/// that were listed, in ascending order.
proof fn lemma_secrets_kept(run: Seq<RecipientsChange>, files: Vec<String>, at: int)
    requires
        run.len() >= 2,
        1 <= at < run.len(),
        run[0].phase == Phase::Listing,
        run[0].reencrypted@.len() == 0,
        lists_secrets(run[0], files, run[1]),
        forall|k: int| 1 <= k < run.len() - 1 ==> reencrypts_one(#[trigger] run[k], run[k + 1]),
    ensures
        run[at].phase is Reencrypting || run[at].phase is Finished,
        is_normal_form_of(texts(run[at].secrets()), texts(files@)),
    decreases at,
{
    if at == 1 {
        let notices = choose|notices: Seq<Notice>|
            run[0].follows(Event::Secrets { files }, run[1], notices);
        match run[1].phase {
            Phase::Reencrypting { current, rest } => {
                assert(run[1].secrets() =~= seq![current] + rest@);
            },
            _ => {
                assert(run[1].secrets() =~= Seq::<String>::empty());
                assert(texts(run[1].secrets()) =~= texts(files@));
            },
        }
    } else {
        lemma_secrets_kept(run, files, at - 1);
        let before = run[at - 1];
        assert(reencrypts_one(before, run[at - 1 + 1]));
        let notices = choose|notices: Seq<Notice>|
            before.follows(Event::Reencrypted, run[at], notices);
        match before.phase {
            Phase::Reencrypting { current, rest } => {
                assert(before.secrets() =~= before.reencrypted@ + (seq![current] + rest@));
                assert(run[at].secrets() =~= before.secrets());
            },
            _ => {},
        }
    }
}

} // verus!
