//! What can go wrong, what each failure is called, and how a failure is
//! shown with everything that led to it.

use crate::keys::{keys_label, keys_text, Key};
use crate::text::{decimal_text, index_text, join3, join5, texts};
use vstd::prelude::*;
use vstd::string::*;

verus! {

/// The code by which the engine says that no secret key fits a message.
pub const NO_SECKEY: u32 = 17;

/// The code by which the engine says that a public key cannot be used.
pub const UNUSABLE_PUBKEY: u32 = 53;

/// What the OpenPGP engine reported when it refused an operation.
#[derive(Debug, PartialEq, Eq)]
pub struct EngineError {
    /// The engine's code for the failure, without the part that names its
    /// source.
    pub code: u32,
    /// The engine's own words for it.
    pub description: String,
}

/// The direction of a file operation that failed.
#[derive(Clone, Copy, Debug, PartialEq, Eq, Structural)]
pub enum IOMode {
    Read,
    Write,
}

/// A message could not be decrypted, for want of a secret key.
#[derive(Debug, PartialEq, Eq)]
pub struct DecryptionError {
    pub cause: EngineError,
}

/// A message could not be encrypted, because a recipient's key is not
/// trusted.
#[derive(Debug, PartialEq, Eq)]
pub struct EncryptionError {
    pub cause: EngineError,
}

/// A failure to read or write the vault's configuration file.
#[derive(Debug, PartialEq, Eq)]
pub enum VaultError {
    ConfigurationFileExists(String),
    ReadFile { cause: String, path: String },
    WriteFile { cause: String, path: String },
    Deserialization { cause: String, path: String },
    Serialization { cause: String, path: String },
}

/// One failure, with what it is about.
#[derive(Debug, PartialEq, Eq)]
#[allow(inconsistent_fields)]
pub enum Fail {
    /// No secret key fits what was to be decrypted.
    Decryption(DecryptionError),
    /// A recipient's key cannot be used for encryption.
    Encryption(EncryptionError),
    /// The configuration file could not be read or written.
    Vault(VaultError),
    /// The engine refused for another reason.
    Engine(EngineError),
    /// The file system refused.
    Io(String),
    /// A failure of which only its text is known.
    Message(String),
    /// The selector names the leader, which is never removed.
    RefusesToRemoveLeader { index: usize },
    /// More than one partition fits the selector.
    AmbiguousSelector { selector: String, matches: Vec<usize> },
    /// No partition fits the selector.
    NoMatchingPartition { selector: String },
    /// The keyring does not hold exactly one key to sign with.
    AmbiguousSigningKey { candidates: Vec<Key> },
    /// The key that was asked to sign is not among the secret keys.
    NoSigningKey { key_id: String },
    /// The engine gave only a part of the keys that were asked for.
    KeylistTruncated,
    /// The engine found another number of keys than were asked for.
    ViableKeys { found: Vec<Key>, requested: usize },
    /// The vault does not know where its configuration file is.
    UnknownVaultPath,
    /// The secrets directory has no directory above it.
    NoSecretsParent { secrets_dir: String },
    /// The path of the recipients file names no file.
    NoRecipientsFileName { recipients_file: String },
    /// The vault has no directory for public keys.
    KeysDirRequired,
    /// A secret vanished while the vault was re-encrypted.
    RaceDuringReencrypt { file: String },
    /// A command lacks an argument that it cannot do without.
    MissingArgument { name: String },
    /// Something was reported that had not been asked for.
    OutOfTurn,
    /// What was given does not say what to add to the vault.
    InvalidSpec { spec: String },
    /// The vault holds no resource of this name.
    ResourceNotFound { name: String },
    /// The vault holds a resource of this name already.
    ResourceExists { name: String },
    /// The editor did not end well.
    EditorFailed { editor: String },
    /// More keys than were asked for go by the names that were given.
    AmbiguousKeyId { matches: Vec<Key> },
    /// What was given as a fingerprint is none.
    InvalidFingerprint { text: String },
}

/// What a failure is, without what it is about.
#[derive(Clone, Copy, Debug, PartialEq, Eq, Structural)]
pub enum FailKind {
    Context,
    Decryption,
    Encryption,
    Vault,
    Engine,
    Io,
    Message,
    RefusesToRemoveLeader,
    AmbiguousSelector,
    NoMatchingPartition,
    AmbiguousSigningKey,
    NoSigningKey,
    KeylistTruncated,
    ViableKeys,
    UnknownVaultPath,
    NoSecretsParent,
    NoRecipientsFileName,
    KeysDirRequired,
    RaceDuringReencrypt,
    MissingArgument,
    OutOfTurn,
    InvalidSpec,
    ResourceNotFound,
    ResourceExists,
    EditorFailed,
    AmbiguousKeyId,
    InvalidFingerprint,
}

/// A failure with the remarks that were made on its way up. The chain of
/// causes starts at the last remark, goes on to the failure itself and ends
/// with what the failure was caused by.
#[derive(Debug, PartialEq, Eq)]
pub struct Error {
    /// The remarks, the last one made first.
    pub contexts: Vec<String>,
    /// The failure that the remarks are about.
    pub root: Fail,
}

/// Indices in decimal digits, with a comma and a space between two.
pub open spec fn indices_text(s: Seq<usize>) -> Seq<char>
    decreases s.len(),
{
    if s.len() == 0 {
        Seq::empty()
    } else if s.len() == 1 {
        decimal_text(s[0] as nat)
    } else {
        indices_text(s.drop_last()) + ", "@ + decimal_text(s.last() as nat)
    }
}

/// The text for a list of indices.
pub fn indices_label(s: &Vec<usize>) -> (r: String)
    ensures
        r@ == indices_text(s@),
{
    let mut r = String::new();
    let mut i: usize = 0;
    while i < s.len()
        invariant
            i <= s.len(),
            r@ == indices_text(s@.take(i as int)),
        decreases s.len() - i,
    {
        proof {
            assert(s@.take(i + 1).drop_last() =~= s@.take(i as int));
            assert(s@.take(i + 1).last() == s@[i as int]);
        }
        if i > 0 {
            r.append(", ");
        }
        let number = index_text(s[i]);
        r.append(number.as_str());
        proof {
            if i == 0 {
                assert(Seq::<char>::empty() + decimal_text(s@[0] as nat) =~= decimal_text(
                    s@[0] as nat,
                ));
            }
        }
        i += 1;
    }
    proof {
        assert(s@.take(s.len() as int) =~= s@);
    }
    r
}

impl Clone for EngineError {
    fn clone(&self) -> (r: Self)
        ensures
            r == *self,
    {
        EngineError { code: self.code, description: self.description.clone() }
    }
}

impl DecryptionError {
    /// What is said of a failed decryption.
    pub open spec fn message_text() -> Seq<char> {
        "The content was not encrypted for you."@
    }

    /// Names a failure of the engine to decrypt. Where the engine lacked a
    /// secret key, the failure is a `DecryptionError`; any other failure is
    /// passed on under the remark `alternative_text`.
    pub fn caused_by(err: EngineError, alternative_text: &str) -> (r: Error)
        ensures
            err.code == NO_SECKEY ==> r.contexts@.len() == 0 && r.root == Fail::Decryption(
                DecryptionError { cause: err },
            ),
            err.code != NO_SECKEY ==> r.contexts@.len() == 1 && r.contexts@[0]@
                == alternative_text@ && r.root == Fail::Engine(err),
    {
        if err.code == NO_SECKEY {
            Error::new(Fail::Decryption(DecryptionError { cause: err }))
        } else {
            Error::new(Fail::Engine(err)).context(alternative_text.to_owned())
        }
    }
}

impl EncryptionError {
    /// What is said of a failed encryption.
    pub open spec fn message_text() -> Seq<char> {
        "At least one recipient you try to encrypt for is untrusted. Consider (locally) signing the key with `gpg --sign-key <recipient>` or ultimately trusting them."@
    }

    /// Names a failure of the engine to encrypt. Where a recipient's key
    /// could not be used, the failure is an `EncryptionError`; any other
    /// failure is passed on under the remark `alternative_text`.
    pub fn caused_by(err: EngineError, alternative_text: String) -> (r: Error)
        ensures
            err.code == UNUSABLE_PUBKEY ==> r.contexts@.len() == 0 && r.root == Fail::Encryption(
                EncryptionError { cause: err },
            ),
            err.code != UNUSABLE_PUBKEY ==> r.contexts@ == seq![alternative_text] && r.root
                == Fail::Engine(err),
    {
        if err.code == UNUSABLE_PUBKEY {
            Error::new(Fail::Encryption(EncryptionError { cause: err }))
        } else {
            Error::new(Fail::Engine(err)).context(alternative_text)
        }
    }
}

impl VaultError {
    /// The path of the configuration file that the failure is about.
    pub open spec fn path_text(self) -> Seq<char> {
        match self {
            VaultError::ConfigurationFileExists(path) => path@,
            VaultError::ReadFile { path, .. } => path@,
            VaultError::WriteFile { path, .. } => path@,
            VaultError::Deserialization { path, .. } => path@,
            VaultError::Serialization { path, .. } => path@,
        }
    }

    /// What is said of the failure: a sentence that ends with the path in
    /// quotes and a line break.
    pub open spec fn message_text(self) -> Seq<char> {
        (match self {
            VaultError::ConfigurationFileExists(_) => "Cannot overwrite vault configuration file as it already exists at '"@,
            VaultError::Serialization { .. } => "Failed to serialize vault configuration file at '"@,
            VaultError::Deserialization { .. } => "Failed to deserialize vault configuration file at '"@,
            VaultError::WriteFile { .. } => "Failed to write vault configuration file at '"@,
            VaultError::ReadFile { .. } => "Failed to read vault configuration file at '"@,
        }) + self.path_text() + "'\n"@
    }

    /// What the failure was caused by, in the words of who reported it.
    pub open spec fn cause_text(self) -> Option<Seq<char>> {
        match self {
            VaultError::ConfigurationFileExists(_) => None,
            VaultError::ReadFile { cause, .. } => Some(cause@),
            VaultError::WriteFile { cause, .. } => Some(cause@),
            VaultError::Deserialization { cause, .. } => Some(cause@),
            VaultError::Serialization { cause, .. } => Some(cause@),
        }
    }

    /// The text that shows the failure to people.
    pub fn message(&self) -> (r: String)
        ensures
            r@ == self.message_text(),
    {
        match self {
            VaultError::ConfigurationFileExists(path) => join3(
                "Cannot overwrite vault configuration file as it already exists at '",
                path.as_str(),
                "'\n",
            ),
            VaultError::Serialization { path, .. } => join3(
                "Failed to serialize vault configuration file at '",
                path.as_str(),
                "'\n",
            ),
            VaultError::Deserialization { path, .. } => join3(
                "Failed to deserialize vault configuration file at '",
                path.as_str(),
                "'\n",
            ),
            VaultError::WriteFile { path, .. } => join3(
                "Failed to write vault configuration file at '",
                path.as_str(),
                "'\n",
            ),
            VaultError::ReadFile { path, .. } => join3(
                "Failed to read vault configuration file at '",
                path.as_str(),
                "'\n",
            ),
        }
    }

    /// The failure to read, or to write, the configuration file at `path`.
    pub fn from_io_err(cause: String, path: &str, mode: &IOMode) -> (r: Self)
        ensures
            r.path_text() == path@,
            r.cause_text() == Some(cause@),
            *mode == IOMode::Write ==> r is WriteFile,
            *mode == IOMode::Read ==> r is ReadFile,
    {
        match *mode {
            IOMode::Write => VaultError::WriteFile { cause, path: path.to_owned() },
            IOMode::Read => VaultError::ReadFile { cause, path: path.to_owned() },
        }
    }
}

impl Fail {
    /// What this failure is.
    pub open spec fn kind_of(self) -> FailKind {
        match self {
            Fail::Decryption(_) => FailKind::Decryption,
            Fail::Encryption(_) => FailKind::Encryption,
            Fail::Vault(_) => FailKind::Vault,
            Fail::Engine(_) => FailKind::Engine,
            Fail::Io(_) => FailKind::Io,
            Fail::Message(_) => FailKind::Message,
            Fail::RefusesToRemoveLeader { .. } => FailKind::RefusesToRemoveLeader,
            Fail::AmbiguousSelector { .. } => FailKind::AmbiguousSelector,
            Fail::NoMatchingPartition { .. } => FailKind::NoMatchingPartition,
            Fail::AmbiguousSigningKey { .. } => FailKind::AmbiguousSigningKey,
            Fail::NoSigningKey { .. } => FailKind::NoSigningKey,
            Fail::KeylistTruncated => FailKind::KeylistTruncated,
            Fail::ViableKeys { .. } => FailKind::ViableKeys,
            Fail::UnknownVaultPath => FailKind::UnknownVaultPath,
            Fail::NoSecretsParent { .. } => FailKind::NoSecretsParent,
            Fail::NoRecipientsFileName { .. } => FailKind::NoRecipientsFileName,
            Fail::KeysDirRequired => FailKind::KeysDirRequired,
            Fail::RaceDuringReencrypt { .. } => FailKind::RaceDuringReencrypt,
            Fail::MissingArgument { .. } => FailKind::MissingArgument,
            Fail::OutOfTurn => FailKind::OutOfTurn,
            Fail::InvalidSpec { .. } => FailKind::InvalidSpec,
            Fail::ResourceNotFound { .. } => FailKind::ResourceNotFound,
            Fail::ResourceExists { .. } => FailKind::ResourceExists,
            Fail::EditorFailed { .. } => FailKind::EditorFailed,
            Fail::AmbiguousKeyId { .. } => FailKind::AmbiguousKeyId,
            Fail::InvalidFingerprint { .. } => FailKind::InvalidFingerprint,
        }
    }

    /// What the failure was caused by, if it holds its cause: what that
    /// cause is, and its text.
    pub open spec fn cause_of(self) -> Option<(FailKind, Seq<char>)> {
        match self {
            Fail::Decryption(e) => Some((FailKind::Engine, e.cause.description@)),
            Fail::Encryption(e) => Some((FailKind::Engine, e.cause.description@)),
            Fail::Vault(VaultError::ReadFile { cause, .. }) => Some((FailKind::Io, cause@)),
            Fail::Vault(VaultError::WriteFile { cause, .. }) => Some((FailKind::Io, cause@)),
            Fail::Vault(VaultError::Deserialization { cause, .. }) => Some(
                (FailKind::Message, cause@),
            ),
            Fail::Vault(VaultError::Serialization { cause, .. }) => Some(
                (FailKind::Message, cause@),
            ),
            _ => None,
        }
    }

    /// What is said of the failure.
    pub open spec fn message_text(self) -> Seq<char> {
        match self {
            Fail::Decryption(_) => DecryptionError::message_text(),
            Fail::Encryption(_) => EncryptionError::message_text(),
            Fail::Vault(e) => e.message_text(),
            Fail::Engine(e) => e.description@,
            Fail::Io(text) => text@,
            Fail::Message(text) => text@,
            Fail::RefusesToRemoveLeader { index } =>
                "Refusing to remove the leading partition at index "@ + decimal_text(index as nat),
            Fail::AmbiguousSelector { selector, matches } =>
                "Multiple partitions matched the ambiguous selector '"@ + selector@ + "': "@
                    + indices_text(matches@),
            Fail::NoMatchingPartition { selector } =>
                "No partition matched the given selector '"@ + selector@ + "'"@,
            Fail::AmbiguousSigningKey { candidates } =>
                "Expected exactly one secret key to sign with, found: "@ + keys_text(candidates@),
            Fail::NoSigningKey { key_id } =>
                "No secret key matches the signing key '"@ + key_id@ + "'"@,
            Fail::KeylistTruncated => "The key list was truncated unexpectedly, while iterating it"@,
            Fail::ViableKeys { found, requested } =>
                "Found "@ + decimal_text(found@.len()) + " viable keys for key-ids ("@ + keys_text(found@)
                    + "), for "@ + decimal_text(requested as nat) + " given user ids."@,
            Fail::UnknownVaultPath => "Expected vault to know its configuration file"@,
            Fail::NoSecretsParent { secrets_dir } =>
                "Expected vault to have secrets directory ('"@ + secrets_dir@
                    + "') from which a parent directory can be obtained."@,
            Fail::NoRecipientsFileName { recipients_file } =>
                "Expected vault to have a recipients file ('"@ + recipients_file@
                    + "') from which a filename can be obtained"@,
            Fail::KeysDirRequired =>
                "Adding unverified recipients requires you to use a vault that has the `gpg-keys` directory configured"@,
            Fail::RaceDuringReencrypt { file } =>
                "The secret at '"@ + file@ + "' vanished while it was re-encrypted"@,
            Fail::MissingArgument { name } =>
                "BUG: expected clap argument '"@ + name@ + "' to be set"@,
            Fail::OutOfTurn => "Something was reported that had not been asked for"@,
            Fail::InvalidSpec { spec } => "Expected a source and a destination, as in 'src:dst', got '"@
                + spec@ + "'"@,
            Fail::ResourceNotFound { name } => "The resource '"@ + name@ + "' does not exist"@,
            Fail::ResourceExists { name } => "Refusing to overwrite the existing resource '"@
                + name@ + "'"@,
            Fail::EditorFailed { editor } => "The editor '"@ + editor@
                + "' did not end well, nothing was changed"@,
            Fail::AmbiguousKeyId { matches } =>
                "More keys than were asked for match the given key-ids: "@ + keys_text(matches@),
            Fail::InvalidFingerprint { text } =>
                "Expected a fingerprint of 40 or 64 upper-case hexadecimal digits, got '"@ + text@
                    + "'"@,
        }
    }

    /// What this failure is.
    pub fn kind(&self) -> (r: FailKind)
        ensures
            r == self.kind_of(),
    {
        match self {
            Fail::Decryption(_) => FailKind::Decryption,
            Fail::Encryption(_) => FailKind::Encryption,
            Fail::Vault(_) => FailKind::Vault,
            Fail::Engine(_) => FailKind::Engine,
            Fail::Io(_) => FailKind::Io,
            Fail::Message(_) => FailKind::Message,
            Fail::RefusesToRemoveLeader { .. } => FailKind::RefusesToRemoveLeader,
            Fail::AmbiguousSelector { .. } => FailKind::AmbiguousSelector,
            Fail::NoMatchingPartition { .. } => FailKind::NoMatchingPartition,
            Fail::AmbiguousSigningKey { .. } => FailKind::AmbiguousSigningKey,
            Fail::NoSigningKey { .. } => FailKind::NoSigningKey,
            Fail::KeylistTruncated => FailKind::KeylistTruncated,
            Fail::ViableKeys { .. } => FailKind::ViableKeys,
            Fail::UnknownVaultPath => FailKind::UnknownVaultPath,
            Fail::NoSecretsParent { .. } => FailKind::NoSecretsParent,
            Fail::NoRecipientsFileName { .. } => FailKind::NoRecipientsFileName,
            Fail::KeysDirRequired => FailKind::KeysDirRequired,
            Fail::RaceDuringReencrypt { .. } => FailKind::RaceDuringReencrypt,
            Fail::MissingArgument { .. } => FailKind::MissingArgument,
            Fail::OutOfTurn => FailKind::OutOfTurn,
            Fail::InvalidSpec { .. } => FailKind::InvalidSpec,
            Fail::ResourceNotFound { .. } => FailKind::ResourceNotFound,
            Fail::ResourceExists { .. } => FailKind::ResourceExists,
            Fail::EditorFailed { .. } => FailKind::EditorFailed,
            Fail::AmbiguousKeyId { .. } => FailKind::AmbiguousKeyId,
            Fail::InvalidFingerprint { .. } => FailKind::InvalidFingerprint,
        }
    }

    /// What the failure was caused by, if it holds its cause.
    pub fn cause(&self) -> (r: Option<(FailKind, String)>)
        ensures
            match r {
                Some((kind, text)) => self.cause_of() == Some((kind, text@)),
                None => self.cause_of().is_none(),
            },
    {
        match self {
            Fail::Decryption(e) => Some((FailKind::Engine, e.cause.description.clone())),
            Fail::Encryption(e) => Some((FailKind::Engine, e.cause.description.clone())),
            Fail::Vault(VaultError::ReadFile { cause, .. }) => Some((FailKind::Io, cause.clone())),
            Fail::Vault(VaultError::WriteFile { cause, .. }) => Some((FailKind::Io, cause.clone())),
            Fail::Vault(VaultError::Deserialization { cause, .. }) => Some(
                (FailKind::Message, cause.clone()),
            ),
            Fail::Vault(VaultError::Serialization { cause, .. }) => Some(
                (FailKind::Message, cause.clone()),
            ),
            _ => None,
        }
    }

    /// The text that shows the failure to people.
    pub fn message(&self) -> (r: String)
        ensures
            r@ == self.message_text(),
    {
        match self {
            Fail::Decryption(_) => String::from_str("The content was not encrypted for you."),
            Fail::Encryption(_) => String::from_str(
                "At least one recipient you try to encrypt for is untrusted. Consider (locally) signing the key with `gpg --sign-key <recipient>` or ultimately trusting them.",
            ),
            Fail::Vault(e) => e.message(),
            Fail::Engine(e) => e.description.clone(),
            Fail::Io(text) => text.clone(),
            Fail::Message(text) => text.clone(),
            Fail::RefusesToRemoveLeader { index } => {
                let number = index_text(*index);
                String::from_str("Refusing to remove the leading partition at index ").concat(
                    number.as_str(),
                )
            },
            Fail::AmbiguousSelector { selector, matches } => {
                let listed = indices_label(matches);
                let mut r = join3(
                    "Multiple partitions matched the ambiguous selector '",
                    selector.as_str(),
                    "': ",
                );
                r.append(listed.as_str());
                r
            },
            Fail::NoMatchingPartition { selector } => join3(
                "No partition matched the given selector '",
                selector.as_str(),
                "'",
            ),
            Fail::AmbiguousSigningKey { candidates } => {
                let listed = keys_label(candidates);
                String::from_str("Expected exactly one secret key to sign with, found: ").concat(
                    listed.as_str(),
                )
            },
            Fail::NoSigningKey { key_id } => join3(
                "No secret key matches the signing key '",
                key_id.as_str(),
                "'",
            ),
            Fail::KeylistTruncated => String::from_str(
                "The key list was truncated unexpectedly, while iterating it",
            ),
            Fail::ViableKeys { found, requested } => {
                let count = index_text(found.len());
                let listed = keys_label(found);
                let asked = index_text(*requested);
                let mut r = join5(
                    "Found ",
                    count.as_str(),
                    " viable keys for key-ids (",
                    listed.as_str(),
                    "), for ",
                );
                r.append(asked.as_str());
                r.append(" given user ids.");
                r
            },
            Fail::UnknownVaultPath => String::from_str(
                "Expected vault to know its configuration file",
            ),
            Fail::NoSecretsParent { secrets_dir } => join3(
                "Expected vault to have secrets directory ('",
                secrets_dir.as_str(),
                "') from which a parent directory can be obtained.",
            ),
            Fail::NoRecipientsFileName { recipients_file } => join3(
                "Expected vault to have a recipients file ('",
                recipients_file.as_str(),
                "') from which a filename can be obtained",
            ),
            Fail::KeysDirRequired => String::from_str(
                "Adding unverified recipients requires you to use a vault that has the `gpg-keys` directory configured",
            ),
            Fail::RaceDuringReencrypt { file } => join3(
                "The secret at '",
                file.as_str(),
                "' vanished while it was re-encrypted",
            ),
            Fail::MissingArgument { name } => join3(
                "BUG: expected clap argument '",
                name.as_str(),
                "' to be set",
            ),
            Fail::OutOfTurn => String::from_str(
                "Something was reported that had not been asked for",
            ),
            Fail::InvalidSpec { spec } => join3(
                "Expected a source and a destination, as in 'src:dst', got '",
                spec.as_str(),
                "'",
            ),
            Fail::ResourceNotFound { name } => join3(
                "The resource '",
                name.as_str(),
                "' does not exist",
            ),
            Fail::ResourceExists { name } => join3(
                "Refusing to overwrite the existing resource '",
                name.as_str(),
                "'",
            ),
            Fail::EditorFailed { editor } => join3(
                "The editor '",
                editor.as_str(),
                "' did not end well, nothing was changed",
            ),
            Fail::AmbiguousKeyId { matches } => {
                let listed = keys_label(matches);
                String::from_str("More keys than were asked for match the given key-ids: ").concat(
                    listed.as_str(),
                )
            },
            Fail::InvalidFingerprint { text } => join3(
                "Expected a fingerprint of 40 or 64 upper-case hexadecimal digits, got '",
                text.as_str(),
                "'",
            ),
        }
    }
}

impl Error {
    /// A failure on which no remark was made yet.
    pub fn new(root: Fail) -> (r: Error)
        ensures
            r.root == root,
            r.contexts@.len() == 0,
    {
        Error { contexts: Vec::new(), root }
    }

    /// The same failure under one more remark, which becomes the first
    /// link of the chain.
    pub fn context(self, text: String) -> (r: Error)
        ensures
            r.root == self.root,
            r.contexts@ == seq![text] + self.contexts@,
    {
        let mut contexts = self.contexts;
        contexts.insert(0, text);
        proof {
            assert(contexts@ =~= seq![text] + self.contexts@);
        }
        Error { contexts, root: self.root }
    }
}

/// Texts shown one to a line: each one followed by a line break.
pub open spec fn lines_text(lines: Seq<Seq<char>>) -> Seq<char>
    decreases lines.len(),
{
    if lines.len() == 0 {
        Seq::empty()
    } else {
        lines_text(lines.drop_last()) + lines.last() + "\n"@
    }
}

/// Whether `found` is the place of the first `kind` in `kinds`: `None` if
/// there is none.
pub open spec fn is_first_of(kinds: Seq<FailKind>, kind: FailKind, found: Option<usize>) -> bool {
    match found {
        Some(at) => at < kinds.len() && kinds[at as int] == kind && forall|i: int|
            0 <= i < at ==> kinds[i] != kind,
        None => forall|i: int| 0 <= i < kinds.len() ==> kinds[i] != kind,
    }
}

/// The guidance for who could not decrypt, with the name of the program to
/// call.
pub open spec fn guidance_text(program: Seq<char>) -> Seq<char> {
    "Export your public key using '"@ + program
        + " vault recipient init', then ask one of the existing recipients to import your public key using '"@
        + program + " vault recipients add <your-userid>.'"@
}

/// What can be asked of anything that has a chain of causes.
pub trait FailExt {
    /// What each link of the chain is, the outermost first.
    spec fn cause_kinds(&self) -> Seq<FailKind>;

    /// The place in the chain of the first cause that is a `kind`.
    fn first_cause_of(&self, kind: FailKind) -> (r: Option<usize>)
        ensures
            is_first_of(self.cause_kinds(), kind, r),
    ;
}

impl Error {
    /// The texts of the chain of causes, the outermost first: the remarks,
    /// the failure, and what the failure holds as its cause.
    pub open spec fn messages(self) -> Seq<Seq<char>> {
        texts(self.contexts@) + seq![self.root.message_text()] + (match self.root.cause_of() {
            Some((_, text)) => seq![text],
            None => Seq::empty(),
        })
    }

    /// What each link of the chain of causes is, the outermost first.
    pub open spec fn kinds(self) -> Seq<FailKind> {
        Seq::new(self.contexts@.len(), |i: int| FailKind::Context) + seq![self.root.kind_of()] + (
        match self.root.cause_of() {
            Some((kind, _)) => seq![kind],
            None => Seq::empty(),
        })
    }

    /// The chain of causes, the outermost first: what each link is, and
    /// its text.
    pub fn causes(&self) -> (r: Vec<(FailKind, String)>)
        ensures
            r@.len() == self.kinds().len(),
            r@.len() == self.messages().len(),
            forall|i: int|
                0 <= i < r@.len() ==> r@[i].0 == self.kinds()[i] && r@[i].1@ == self.messages()[i],
    {
        let mut r: Vec<(FailKind, String)> = Vec::new();
        let mut i: usize = 0;
        while i < self.contexts.len()
            invariant
                i <= self.contexts.len(),
                r@.len() == i,
                forall|j: int|
                    0 <= j < i ==> r@[j].0 == FailKind::Context && r@[j].1@ == self.contexts@[j]@,
            decreases self.contexts.len() - i,
        {
            r.push((FailKind::Context, self.contexts[i].clone()));
            i += 1;
        }
        r.push((self.root.kind(), self.root.message()));
        match self.root.cause() {
            Some(cause) => {
                r.push(cause);
            },
            None => {},
        }
        r
    }

    /// The chain of causes as it is shown: one link to a line, the
    /// outermost first.
    pub fn print_causes(&self) -> (r: String)
        ensures
            r@ == lines_text(self.messages()),
    {
        let causes = self.causes();
        let ghost messages = self.messages();
        let mut r = String::new();
        let mut i: usize = 0;
        while i < causes.len()
            invariant
                i <= causes.len(),
                causes@.len() == messages.len(),
                forall|j: int| 0 <= j < causes@.len() ==> causes@[j].1@ == messages[j],
                r@ == lines_text(messages.take(i as int)),
            decreases causes.len() - i,
        {
            proof {
                assert(messages.take(i + 1).drop_last() =~= messages.take(i as int));
                assert(messages.take(i + 1).last() == messages[i as int]);
            }
            r.append(causes[i].1.as_str());
            r.append("\n");
            i += 1;
        }
        proof {
            assert(messages.take(causes.len() as int) =~= messages);
        }
        r
    }

    /// What a person is shown of the failure: `error: `, then the chain of
    /// causes.
    pub fn report(&self) -> (r: String)
        ensures
            r@ == "error: "@ + lines_text(self.messages()),
    {
        let lines = self.print_causes();
        String::from_str("error: ").concat(lines.as_str())
    }
}

impl FailExt for Error {
    open spec fn cause_kinds(&self) -> Seq<FailKind> {
        self.kinds()
    }

    fn first_cause_of(&self, kind: FailKind) -> (r: Option<usize>) {
        let causes = self.causes();
        let mut i: usize = 0;
        while i < causes.len()
            invariant
                i <= causes.len(),
                causes@.len() == self.kinds().len(),
                forall|j: int| 0 <= j < causes@.len() ==> causes@[j].0 == self.kinds()[j],
                forall|j: int| 0 <= j < i ==> self.kinds()[j] != kind,
            decreases causes.len() - i,
        {
            if causes[i].0 == kind {
                return Some(i);
            }
            i += 1;
        }
        None
    }
}

/// The place in the chain of `root` of the first cause that is a `kind`.
pub fn first_cause_of_type(root: &Error, kind: FailKind) -> (r: Option<usize>)
    ensures
        is_first_of(root.kinds(), kind, r),
{
    root.first_cause_of(kind)
}

/// Adds guidance to a failure that goes back to a missing secret key: the
/// failure comes back under one more remark, `guidance_text(program)`. Any
/// other result comes back as it is.
pub fn amend_error_info<T>(r: Result<T, Error>, program: &str) -> (amended: Result<T, Error>)
    ensures
        match r {
            Ok(value) => amended == Ok::<T, Error>(value),
            Err(e) => amended is Err && amended->Err_0.root == e.root && (if e.kinds().contains(
                FailKind::Decryption,
            ) {
                amended->Err_0.contexts@.len() == e.contexts@.len() + 1
                    && amended->Err_0.contexts@[0]@ == guidance_text(program@)
                    && amended->Err_0.contexts@.skip(1) == e.contexts@
            } else {
                amended->Err_0.contexts@ == e.contexts@
            }),
        },
{
    match r {
        Ok(value) => Ok(value),
        Err(e) => {
            match first_cause_of_type(&e, FailKind::Decryption) {
                Some(at) => {
                    let mut text = join3(
                        "Export your public key using '",
                        program,
                        " vault recipient init', then ask one of the existing recipients to import your public key using '",
                    );
                    text.append(program);
                    text.append(" vault recipients add <your-userid>.'");
                    let ghost before = e.contexts@;
                    let amended = e.context(text);
                    proof {
                        assert(e.kinds()[at as int] == FailKind::Decryption);
                        assert(amended.contexts@.skip(1) =~= before);
                    }
                    Err(amended)
                },
                None => Err(e),
            }
        },
    }
}

} // verus!
