//! What the library has to tell of what it did, for the program to show.

use crate::keys::Key;
use crate::resource::{logical_name, logical_text};
use crate::text::{join3, join5};
use vstd::prelude::*;
use vstd::string::*;

verus! {

/// One thing that was done.
#[derive(Debug, PartialEq, Eq)]
pub enum Notice {
    /// The partition that `selector` stands for was removed.
    RemovedPartition { selector: String },
    /// A partition was added, with its secrets in `secrets_dir`; `name` is
    /// the name that was asked for, if one was.
    AddedPartition { name: Option<String>, secrets_dir: String },
    /// The key of a recipient was signed.
    SignedKey { key: Key, signer: Key },
    /// The public key of a recipient was written to the vault's directory
    /// of keys.
    ExportedKey { key: Key },
    /// A recipient was added to the list.
    AddedRecipient { key: Key },
    /// A recipient was taken off the list.
    RemovedRecipient { key: Key },
    /// A secret was encrypted anew for the recipients of its partition.
    Reencrypted { file: String },
}

impl Notice {
    /// What is said of what was done.
    pub open spec fn message_text(self) -> Seq<char> {
        match self {
            Notice::RemovedPartition { selector } => "Removed partition matching selector '"@
                + selector@ + "'"@,
            Notice::AddedPartition { name, secrets_dir } => match name {
                Some(name) => "Added partition '"@ + name@ + "' with resources at '"@
                    + secrets_dir@ + "'"@,
                None => "Added unnamed partition with resources at '"@ + secrets_dir@ + "'"@,
            },
            Notice::SignedKey { key, signer } => "Signed recipients key "@ + key.label_text()
                + " with signing key "@ + signer.label_text(),
            Notice::ExportedKey { key } => "Exported key '"@ + key.fingerprint@ + "' for user "@
                + key.user_id@,
            Notice::AddedRecipient { key } => "Added recipient "@ + key.user_id@,
            Notice::RemovedRecipient { key } => "Removed recipient "@ + key.user_id@,
            Notice::Reencrypted { file } => "Re-encrypted '"@ + logical_text(file@)
                + "' for new recipient(s)"@,
        }
    }

    /// The text that tells people what was done.
    pub fn message(&self) -> (r: String)
        ensures
            r@ == self.message_text(),
    {
        match self {
            Notice::RemovedPartition { selector } => join3(
                "Removed partition matching selector '",
                selector.as_str(),
                "'",
            ),
            Notice::AddedPartition { name, secrets_dir } => match name {
                Some(name) => join5(
                    "Added partition '",
                    name.as_str(),
                    "' with resources at '",
                    secrets_dir.as_str(),
                    "'",
                ),
                None => join3(
                    "Added unnamed partition with resources at '",
                    secrets_dir.as_str(),
                    "'",
                ),
            },
            Notice::SignedKey { key, signer } => {
                let signed = key.label();
                let with = signer.label();
                let mut r = join3("Signed recipients key ", signed.as_str(), " with signing key ");
                r.append(with.as_str());
                r
            },
            Notice::ExportedKey { key } => {
                let mut r = join3("Exported key '", key.fingerprint.as_str(), "' for user ");
                r.append(key.user_id.as_str());
                r
            },
            Notice::AddedRecipient { key } => String::from_str("Added recipient ").concat(
                key.user_id.as_str(),
            ),
            Notice::RemovedRecipient { key } => String::from_str("Removed recipient ").concat(
                key.user_id.as_str(),
            ),
            Notice::Reencrypted { file } => {
                let name = logical_name(file.as_str());
                join3("Re-encrypted '", name.as_str(), "' for new recipient(s)")
            },
        }
    }
}

} // verus!
