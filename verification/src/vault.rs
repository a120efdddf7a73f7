//! The vault and its partitions, as the configuration file describes
//! them.

use crate::paths::{join_paths, parent_of, path_join, path_parent};
use vstd::string::*;
use vstd::prelude::*;

verus! {

/// Whether a vault leads the others of its configuration file, or is one
/// of the led.
#[derive(Clone, Copy, Debug, PartialEq, Eq, Structural)]
pub enum VaultKind {
    Leader,
    Partition,
}

/// Whether a file that exists may be written over.
#[derive(Clone, Copy, Debug, PartialEq, Eq, Structural)]
pub enum WriteMode {
    AllowOverwrite,
    RefuseOverwrite,
}

/// Whether the keys of new recipients are signed before they are used.
#[derive(Clone, Copy, Debug, PartialEq, Eq, Structural)]
pub enum SigningMode {
    /// The keys are used as the keyring has them, and must be trusted.
    Verified,
    /// The keys are taken from the vault's directory of public keys and
    /// signed.
    Public,
}

/// Whether a resource that does not exist yet may be made.
#[derive(Clone, Copy, Debug, PartialEq, Eq, Structural)]
pub enum CreateMode {
    Create,
    NoCreate,
}

/// A vault: the leader of a configuration file with its partitions, or
/// one of the partitions.
#[derive(Debug, PartialEq, Eq)]
pub struct Vault {
    /// What people call the vault.
    pub name: Option<String>,
    pub kind: VaultKind,
    /// The number by which the vault is told from the others of its file.
    pub index: usize,
    /// The vaults that this one leads, if it is a leader.
    pub partitions: Vec<Vault>,
    /// Where the configuration file is, once that is known.
    pub vault_path: Option<String>,
    /// The directory of the encrypted resources.
    pub secrets_dir: String,
    /// The directory of the recipients' public keys, if the vault has one.
    pub gpg_keys_dir: Option<String>,
    /// The file that lists the recipients.
    pub recipients_file: String,
}

impl Vault {
    /// A new vault for the configuration file at `vault_path`: a leader
    /// without a name and without partitions, with the index 0, whose
    /// secrets are kept beside the configuration file.
    pub fn init(vault_path: &str, recipients_file: &str, gpg_keys_dir: &str) -> (vault: Vault)
        ensures
            vault.name.is_none(),
            vault.kind == VaultKind::Leader,
            vault.index == 0,
            vault.partitions@.len() == 0,
            vault.vault_path matches Some(path) && path@ == vault_path@,
            vault.secrets_dir@ == "."@,
            vault.gpg_keys_dir matches Some(dir) && dir@ == gpg_keys_dir@,
            vault.recipients_file@ == recipients_file@,
            vault.is_well_formed(),
    {
        let vault = Vault {
            name: None,
            kind: VaultKind::Leader,
            index: 0,
            partitions: Vec::new(),
            vault_path: Some(vault_path.to_owned()),
            secrets_dir: ".".to_owned(),
            gpg_keys_dir: Some(gpg_keys_dir.to_owned()),
            recipients_file: recipients_file.to_owned(),
        };
        proof {
            assert(vault.indices() =~= seq![0usize]);
        }
        vault
    }

    /// A path of the vault as seen from where the configuration file is:
    /// from the directory that holds the file. Where the file is not
    /// known, or has no directory above it, the path is left as it is.
    pub open spec fn absolute_text(self, path: Seq<char>) -> Seq<char> {
        match self.vault_path {
            Some(file) => match path_parent(file@) {
                Some(directory) => path_join(directory, path),
                None => path,
            },
            None => path,
        }
    }

    /// A path of the vault as seen from where the configuration file is.
    pub fn absolute_path(&self, path: &str) -> (r: String)
        ensures
            r@ == self.absolute_text(path@),
    {
        match &self.vault_path {
            Some(file) => match parent_of(file.as_str()) {
                Some(directory) => join_paths(directory.as_str(), path),
                None => path.to_owned(),
            },
            None => path.to_owned(),
        }
    }

    /// The indices of the vaults of the tree: the leader's, then those of
    /// its partitions.
    pub open spec fn indices(self) -> Seq<usize> {
        seq![self.index] + self.partitions@.map_values(|v: Vault| v.index)
    }

    /// Whether no two vaults of the tree have the same index.
    pub open spec fn has_unique_indices(self) -> bool {
        self.indices().no_duplicates()
    }

    /// Whether two vaults have their configuration file at the same
    /// place, or both at none.
    pub open spec fn shares_path_with(self, other: Vault) -> bool {
        match (self.vault_path, other.vault_path) {
            (Some(a), Some(b)) => a@ == b@,
            (None, None) => true,
            _ => false,
        }
    }

    /// Whether the vault is a leader as a configuration file describes
    /// one: no two vaults of the tree have the same index, and what it
    /// leads are partitions that lead nothing themselves and have their
    /// configuration file where the leader has it.
    pub open spec fn is_well_formed(self) -> bool {
        &&& self.kind == VaultKind::Leader
        &&& self.has_unique_indices()
        &&& forall|i: int|
            0 <= i < self.partitions@.len() ==> {
                &&& (#[trigger] self.partitions@[i]).kind == VaultKind::Partition
                &&& self.partitions@[i].partitions@.len() == 0
                &&& self.partitions@[i].shares_path_with(self)
            }
    }

    /// Whether `max` is the largest index in the tree.
    pub open spec fn is_max_index(self, max: usize) -> bool {
        self.indices().contains(max) && forall|i: int|
            0 <= i < self.indices().len() ==> self.indices()[i] <= max
    }

    /// The largest index in the tree.
    pub fn max_index(&self) -> (max: usize)
        ensures
            self.is_max_index(max),
    {
        let mut max = self.index;
        let mut i: usize = 0;
        let ghost all = self.indices();
        assert(all[0] == self.index);
        while i < self.partitions.len()
            invariant
                i <= self.partitions.len(),
                all == self.indices(),
                exists|k: int| 0 <= k <= i && all[k] == max,
                forall|k: int| 0 <= k <= i ==> all[k] <= max,
            decreases self.partitions.len() - i,
        {
            assert(all[i + 1] == self.partitions@[i as int].index);
            if self.partitions[i].index > max {
                max = self.partitions[i].index;
            }
            i += 1;
        }
        max
    }
}

} // verus!
