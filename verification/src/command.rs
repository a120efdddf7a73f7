//! The commands that the library is given to carry out.

use crate::vault::{CreateMode, SigningMode};
use vstd::prelude::*;

verus! {

/// What to add to a vault, and under which name.
#[derive(Debug, PartialEq, Eq)]
pub struct VaultSpec {
    /// The file to read, or `None` for the standard input.
    pub src: Option<String>,
    /// The name of the resource in the vault.
    pub dst: String,
}

/// One thing to do with a vault.
#[derive(Debug, PartialEq, Eq)]
#[allow(inconsistent_fields)]
pub enum VaultCommand {
    Init { recipients_file: String, gpg_keys_dir: String, gpg_key_ids: Vec<String> },
    List,
    PartitionsAdd { path: String, name: Option<String> },
    PartitionsRemove { selector: String },
    RecipientsAdd { gpg_key_ids: Vec<String>, sign: SigningMode, signing_key_id: Option<String> },
    RecipientsRemove { gpg_key_ids: Vec<String> },
    RecipientsInit { gpg_key_ids: Vec<String> },
    RecipientsList,
    ResourceAdd { specs: Vec<VaultSpec> },
    ResourceRemove { specs: Vec<String> },
    ResourceShow { spec: String },
    ResourceEdit { spec: String, editor: String, mode: CreateMode },
    ResourceList,
}

/// A command with the vault that it is about.
#[derive(Debug, PartialEq, Eq)]
pub struct VaultContext {
    /// The configuration file of the vault.
    pub vault_path: String,
    /// The selector of the vault among those of the file.
    pub vault_id: String,
    pub command: VaultCommand,
}

/// What to take data from.
#[derive(Debug, PartialEq, Eq)]
pub struct ExtractionContext {
    pub file_path: String,
}

/// A shell for which completions can be made.
#[derive(Clone, Copy, Debug, PartialEq, Eq, Structural)]
pub enum Shell {
    Bash,
    Fish,
    Zsh,
    PowerShell,
    Elvish,
}

} // verus!
