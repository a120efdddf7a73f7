//! Partitions of a vault: how a selector finds one, and how one is added
//! to the leader or removed from it.

use crate::error::{Error, Fail, VaultError};
use crate::notice::Notice;
use crate::paths::{
    file_name_of, join_paths, parent_of, path_equal, path_file_name, path_join, path_parent,
    same_path,
};
use crate::text::{index_of_text, parse_index, str_eq};
use crate::text::copy_optional_text;
use crate::vault::{Vault, VaultKind, WriteMode};
use vstd::prelude::*;
use vstd::string::*;

verus! {

/// What a selector leads to among some partitions.
pub enum Resolution {
    /// To the one partition with this index.
    Found(usize),
    /// To the leader, whose index this is, which may not be selected.
    Refused(usize),
    /// To more than one partition: those with these indices.
    Ambiguous(Seq<usize>),
    /// To none.
    NoMatch,
}

/// Whether a selector that is no index fits a vault: as the path of its
/// secrets directory or, failing that, as its name.
pub open spec fn selects(vault: Vault, selector: Seq<char>) -> bool {
    path_equal(vault.secrets_dir@, selector) || (vault.name matches Some(name) && name@
        == selector)
}

/// `selects`, for a given selector.
pub open spec fn selecting(selector: Seq<char>) -> spec_fn(Vault) -> bool {
    |vault: Vault| selects(vault, selector)
}

/// The indices of the partitions that a selector fits, in the order of the
/// partitions.
pub open spec fn candidates(partitions: Seq<Vault>, selector: Seq<char>) -> Seq<usize> {
    partitions.filter(selecting(selector)).map_values(|v: Vault| v.index)
}

/// What a selector leads to. A selector that reads as an index stands for
/// the partition with that index, and is refused where the index is the
/// leader's. Any other selector stands for the partitions that it fits by
/// path or by name, which must be one and no more.
pub open spec fn resolution(
    selector: Seq<char>,
    partitions: Seq<Vault>,
    leader_index: Option<usize>,
) -> Resolution {
    match index_of_text(selector) {
        Some(index) => {
            if leader_index == Some(index) {
                Resolution::Refused(index)
            } else if exists|i: int| 0 <= i < partitions.len() && partitions[i].index == index {
                Resolution::Found(index)
            } else {
                Resolution::NoMatch
            }
        },
        None => {
            let found = candidates(partitions, selector);
            if found.len() == 1 {
                Resolution::Found(found[0])
            } else if found.len() == 0 {
                Resolution::NoMatch
            } else {
                Resolution::Ambiguous(found)
            }
        },
    }
}

/// Whether `error` is the failure that reports what `selector` led to.
pub open spec fn reports(error: Error, outcome: Resolution, selector: Seq<char>) -> bool {
    error.contexts@.len() == 0 && match outcome {
        Resolution::Found(_) => false,
        Resolution::Refused(index) => error.root == (Fail::RefusesToRemoveLeader { index }),
        Resolution::Ambiguous(found) => (error.root matches Fail::AmbiguousSelector {
            selector: s,
            matches,
        } && s@ == selector && matches@ == found),
        Resolution::NoMatch => (error.root matches Fail::NoMatchingPartition { selector: s } && s@
            == selector),
    }
}

/// Where a vault is written, and whether over what is there.
#[derive(Debug, PartialEq, Eq)]
pub struct WritePlan {
    pub path: String,
    pub mode: WriteMode,
}

fn selected(vault: &Vault, selector: &str) -> (r: bool)
    ensures
        r == selects(*vault, selector@),
{
    if same_path(vault.secrets_dir.as_str(), selector) {
        true
    } else {
        match &vault.name {
            Some(name) => str_eq(name.as_str(), selector),
            None => false,
        }
    }
}

/// Whether a configuration file may be written at `path`, given whether
/// one `exists` there: always where `mode` allows to write over it,
/// otherwise only where none exists.
pub fn may_write(mode: WriteMode, exists: bool, path: &str) -> (r: Result<(), Error>)
    ensures
        r is Err <==> mode == WriteMode::RefuseOverwrite && exists,
        r matches Err(e) ==> e.contexts@.len() == 0 && (e.root matches Fail::Vault(
            VaultError::ConfigurationFileExists(p),
        ) && p@ == path@),
{
    match mode {
        WriteMode::RefuseOverwrite => {
            if exists {
                Err(
                    Error::new(
                        Fail::Vault(
                            VaultError::ConfigurationFileExists(path.to_owned()),
                        ),
                    ),
                )
            } else {
                Ok(())
            }
        },
        WriteMode::AllowOverwrite => Ok(()),
    }
}

impl Vault {
    /// Where this vault is to be written: to the configuration file that
    /// it came from, over what is there. A vault that does not know its
    /// configuration file cannot be written.
    pub fn serialize(&self) -> (r: Result<WritePlan, Error>)
        ensures
            match r {
                Ok(plan) => self.vault_path == Some(plan.path) && plan.mode
                    == WriteMode::AllowOverwrite,
                Err(e) => self.vault_path.is_none() && e.contexts@.len() == 0 && e.root
                    == Fail::UnknownVaultPath,
            },
    {
        match &self.vault_path {
            Some(path) => Ok(WritePlan { path: path.clone(), mode: WriteMode::AllowOverwrite }),
            None => Err(Error::new(Fail::UnknownVaultPath)),
        }
    }

    /// The index of the partition that `selector` stands for among
    /// `partitions`, or the failure that reports why it stands for none:
    /// see `resolution`.
    pub fn partition_index(selector: &str, partitions: &[Vault], leader_index: Option<usize>) -> (r:
        Result<usize, Error>)
        ensures
            match r {
                Ok(index) => resolution(selector@, partitions@, leader_index) == Resolution::Found(
                    index,
                ),
                Err(e) => reports(e, resolution(selector@, partitions@, leader_index), selector@),
            },
    {
        match parse_index(selector) {
            Some(index) => {
                match leader_index {
                    Some(leader) => {
                        if leader == index {
                            return Err(Error::new(Fail::RefusesToRemoveLeader { index }));
                        }
                    },
                    None => {},
                }
                let mut i: usize = 0;
                while i < partitions.len()
                    invariant
                        i <= partitions.len(),
                        index_of_text(selector@) == Some(index),
                        leader_index != Some(index),
                        forall|j: int| 0 <= j < i ==> partitions@[j].index != index,
                    decreases partitions.len() - i,
                {
                    if partitions[i].index == index {
                        return Ok(index);
                    }
                    i += 1;
                }
                Err(Error::new(Fail::NoMatchingPartition { selector: selector.to_owned() }))
            },
            None => {
                let mut matches: Vec<usize> = Vec::new();
                let mut i: usize = 0;
                proof {
                    assert(partitions@.take(0) =~= Seq::<Vault>::empty());
                    reveal(Seq::filter);
                    assert(matches@ =~= candidates(partitions@.take(0), selector@));
                }
                while i < partitions.len()
                    invariant
                        i <= partitions.len(),
                        matches@ == candidates(partitions@.take(i as int), selector@),
                    decreases partitions.len() - i,
                {
                    proof {
                        let head = partitions@.take(i as int);
                        assert(partitions@.take(i + 1) =~= head.push(partitions@[i as int]));
                        head.lemma_filter_push(partitions@[i as int], selecting(selector@));
                        let kept = head.filter(selecting(selector@));
                        assert(kept.push(partitions@[i as int]).map_values(|v: Vault| v.index)
                            =~= kept.map_values(|v: Vault| v.index).push(
                            partitions@[i as int].index,
                        ));
                    }
                    if selected(&partitions[i], selector) {
                        matches.push(partitions[i].index);
                    }
                    i += 1;
                }
                proof {
                    assert(partitions@.take(partitions.len() as int) =~= partitions@);
                }
                if matches.len() == 1 {
                    Ok(matches[0])
                } else if matches.len() == 0 {
                    Err(Error::new(Fail::NoMatchingPartition { selector: selector.to_owned() }))
                } else {
                    Err(
                        Error::new(
                            Fail::AmbiguousSelector { selector: selector.to_owned(), matches },
                        ),
                    )
                }
            },
        }
    }

    /// Whether `self` and `other` differ in their partitions at most.
    pub open spec fn same_but_partitions(self, other: Vault) -> bool {
        &&& self.name == other.name
        &&& self.kind == other.kind
        &&& self.index == other.index
        &&& self.vault_path == other.vault_path
        &&& self.secrets_dir == other.secrets_dir
        &&& self.gpg_keys_dir == other.gpg_keys_dir
        &&& self.recipients_file == other.recipients_file
    }

    /// Whether `partition` is what `leader` gets for a new partition at
    /// `path` with the name `name`: a partition with the next free index
    /// and the leader's configuration file, whose secrets are at `path` as
    /// seen from beside the leader's secrets, whose recipients file has
    /// the name of the leader's and stands with its secrets, and which is
    /// called `name` or, for want of one, as the last part of `path`.
    pub open spec fn is_new_partition_of(
        partition: Vault,
        leader: Vault,
        path: Seq<char>,
        name: Option<&str>,
    ) -> bool {
        let secrets = path_join(path_parent(leader.secrets_dir@).unwrap(), path);
        let wanted = match name {
            Some(n) => Some(n@),
            None => path_file_name(path),
        };
        &&& partition.kind == VaultKind::Partition
        &&& partition.index > 0
        &&& leader.is_max_index((partition.index - 1) as usize)
        &&& partition.partitions@.len() == 0
        &&& partition.vault_path == leader.vault_path
        &&& partition.gpg_keys_dir.is_none()
        &&& partition.secrets_dir@ == secrets
        &&& partition.recipients_file@ == path_join(
            secrets,
            path_file_name(leader.recipients_file@).unwrap(),
        )
        &&& match wanted {
            Some(n) => (partition.name matches Some(given) && given@ == n),
            None => partition.name.is_none(),
        }
    }

    /// Removes the partition that `selector` stands for. The leader
    /// itself is never removed: a selector that reads as its index is
    /// refused. Where the selector stands for no partition, or for more
    /// than one, nothing changes.
    pub fn remove_partition(&mut self, selector: &str) -> (r: Result<Notice, Error>)
        ensures
            final(self).same_but_partitions(*old(self)),
            match resolution(selector@, old(self).partitions@, Some(old(self).index)) {
                Resolution::Found(index) => (r matches Ok(Notice::RemovedPartition { selector: s })
                    && s@ == selector@) && final(self).partitions@ == old(self).partitions@.filter(
                    not_at(index),
                ),
                outcome => (r matches Err(e) && reports(e, outcome, selector@)) && *final(self)
                    == *old(self),
            },
            index_of_text(selector@) == Some(old(self).index) ==> *final(self) == *old(self) && (
            r matches Err(e) && e.root == (Fail::RefusesToRemoveLeader { index: old(self).index })),
            old(self).has_unique_indices() ==> final(self).has_unique_indices(),
            old(self).is_well_formed() ==> final(self).is_well_formed(),
            r is Ok ==> is_removal(*old(self), *final(self)),
    {
        let index = match Vault::partition_index(
            selector,
            self.partitions.as_slice(),
            Some(self.index),
        ) {
            Ok(index) => index,
            Err(e) => {
                return Err(e);
            },
        };
        let ghost before = self.partitions@;
        let ghost mut seen: int = 0;
        let mut i: usize = 0;
        proof {
            assert(before.take(0) =~= Seq::<Vault>::empty());
            reveal(Seq::filter);
            assert(self.partitions@.take(0) =~= before.take(0).filter(not_at(index)));
            assert(self.partitions@.skip(0) =~= before.skip(0));
        }
        while i < self.partitions.len()
            invariant
                self.same_but_partitions(*old(self)),
                0 <= seen <= before.len(),
                i <= self.partitions@.len(),
                self.partitions@.len() - i == before.len() - seen,
                self.partitions@.take(i as int) == before.take(seen).filter(not_at(index)),
                self.partitions@.skip(i as int) == before.skip(seen),
            decreases self.partitions@.len() - i,
        {
            let ghost current = self.partitions@;
            proof {
                assert(current[i as int] == current.skip(i as int)[0]);
                assert(current[i as int] == before[seen]);
                assert(before.take(seen + 1) =~= before.take(seen).push(before[seen]));
                before.take(seen).lemma_filter_push(before[seen], not_at(index));
            }
            if self.partitions[i].index == index {
                self.partitions.remove(i);
                proof {
                    assert(self.partitions@.take(i as int) =~= current.take(i as int));
                    assert(self.partitions@.skip(i as int) =~= current.skip(i as int).skip(1));
                    assert(before.skip(seen).skip(1) =~= before.skip(seen + 1));
                }
            } else {
                proof {
                    assert(current.take(i + 1) =~= current.take(i as int).push(current[i as int]));
                    assert(current.skip(i + 1) =~= current.skip(i as int).skip(1));
                    assert(before.skip(seen).skip(1) =~= before.skip(seen + 1));
                }
                i += 1;
            }
            proof {
                seen = seen + 1;
            }
        }
        proof {
            assert(self.partitions@.take(i as int) =~= self.partitions@);
            assert(before.take(seen) =~= before);
            if old(self).has_unique_indices() {
                lemma_removal_keeps_indices_unique(old(self).index, before, not_at(index));
            }
            if old(self).is_well_formed() {
                assert forall|i: int| 0 <= i < self.partitions@.len() implies {
                    &&& (#[trigger] self.partitions@[i]).kind == VaultKind::Partition
                    &&& self.partitions@[i].partitions@.len() == 0
                    &&& self.partitions@[i].shares_path_with(*self)
                } by {
                    let kept = self.partitions@[i];
                    assert(before.filter(not_at(index)).contains(kept));
                    before.lemma_filter_contains_rev(not_at(index), kept);
                    let j = choose|j: int| 0 <= j < before.len() && before[j] == kept;
                    assert(old(self).partitions@[j] == kept);
                }
            }
        }
        Ok(Notice::RemovedPartition { selector: selector.to_owned() })
    }

    /// Adds `partition` to the partitions of this vault, as the last.
    pub fn push_partition(&mut self, partition: Vault)
        ensures
            final(self).same_but_partitions(*old(self)),
            final(self).partitions@ == old(self).partitions@.push(partition),
            old(self).has_unique_indices() && (forall|i: int|
                0 <= i < old(self).indices().len() ==> old(self).indices()[i] < partition.index)
                ==> final(self).has_unique_indices(),
    {
        proof {
            lemma_addition_keeps_indices_unique(old(self).index, old(self).partitions@, partition);
        }
        self.partitions.push(partition);
    }

    /// Adds a partition whose secrets are kept at `path`, as seen from the
    /// directory that holds this vault's secrets directory: the partition
    /// described by `is_new_partition_of`. Nothing changes where this
    /// vault's secrets directory has no directory above it, or where the
    /// path of its recipients file names no file.
    pub fn add_partition(&mut self, path: &str, name: Option<&str>) -> (r: Result<Notice, Error>)
        requires
            forall|i: int|
                0 <= i < old(self).indices().len() ==> old(self).indices()[i] < usize::MAX,
        ensures
            final(self).same_but_partitions(*old(self)),
            old(self).has_unique_indices() ==> final(self).has_unique_indices(),
            old(self).is_well_formed() ==> final(self).is_well_formed(),
            r is Ok ==> is_addition(*old(self), *final(self)),
            match r {
                Ok(notice) => {
                    &&& path_parent(old(self).secrets_dir@).is_some()
                    &&& path_file_name(old(self).recipients_file@).is_some()
                    &&& final(self).partitions@.len() == old(self).partitions@.len() + 1
                    &&& final(self).partitions@.drop_last() == old(self).partitions@
                    &&& Self::is_new_partition_of(
                        final(self).partitions@.last(),
                        *old(self),
                        path@,
                        name,
                    )
                    &&& notice matches Notice::AddedPartition { name: said, secrets_dir }
                    &&& secrets_dir == final(self).partitions@.last().secrets_dir
                    &&& match name {
                        Some(n) => (said matches Some(s) && s@ == n@),
                        None => said.is_none(),
                    }
                },
                Err(e) => {
                    &&& *final(self) == *old(self)
                    &&& e.contexts@.len() == 0
                    &&& if path_parent(old(self).secrets_dir@).is_none() {
                        e.root == (Fail::NoSecretsParent { secrets_dir: old(self).secrets_dir })
                    } else {
                        path_file_name(old(self).recipients_file@).is_none() && e.root == (
                        Fail::NoRecipientsFileName { recipients_file: old(self).recipients_file })
                    }
                },
            },
    {
        let secrets_parent = match parent_of(self.secrets_dir.as_str()) {
            Some(parent) => parent,
            None => {
                return Err(
                    Error::new(Fail::NoSecretsParent { secrets_dir: self.secrets_dir.clone() }),
                );
            },
        };
        let partition_secrets_dir = join_paths(secrets_parent.as_str(), path);
        let recipients_name = match file_name_of(self.recipients_file.as_str()) {
            Some(file) => file,
            None => {
                return Err(
                    Error::new(
                        Fail::NoRecipientsFileName {
                            recipients_file: self.recipients_file.clone(),
                        },
                    ),
                );
            },
        };
        let recipients_file = join_paths(partition_secrets_dir.as_str(), recipients_name.as_str());
        let max_index = self.max_index();
        proof {
            let at = choose|i: int|
                0 <= i < self.indices().len() && self.indices()[i] == max_index;
            assert(self.indices()[at] < usize::MAX);
        }
        let partition_name = match name {
            Some(n) => Some(n.to_owned()),
            None => file_name_of(path),
        };
        let said = match name {
            Some(n) => Some(n.to_owned()),
            None => None,
        };
        let notice = Notice::AddedPartition { name: said, secrets_dir: partition_secrets_dir.clone() };
        let partition = Vault {
            name: partition_name,
            kind: VaultKind::Partition,
            index: max_index + 1,
            partitions: Vec::new(),
            vault_path: copy_optional_text(&self.vault_path),
            secrets_dir: partition_secrets_dir,
            gpg_keys_dir: None,
            recipients_file,
        };
        self.push_partition(partition);
        proof {
            assert(self.partitions@.drop_last() =~= old(self).partitions@);
            if old(self).is_well_formed() {
                assert forall|i: int| 0 <= i < self.partitions@.len() implies {
                    &&& (#[trigger] self.partitions@[i]).kind == VaultKind::Partition
                    &&& self.partitions@[i].partitions@.len() == 0
                    &&& self.partitions@[i].shares_path_with(*self)
                } by {
                    if i < old(self).partitions@.len() {
                        assert(self.partitions@[i] == old(self).partitions@[i]);
                    }
                }
            }
        }
        Ok(notice)
    }
}

/// Whether a vault has another index than `index`.
pub open spec fn not_at(index: usize) -> spec_fn(Vault) -> bool {
    |vault: Vault| vault.index != index
}

/// The indices of a leader and its partitions.
pub open spec fn indices_of(leader: usize, partitions: Seq<Vault>) -> Seq<usize> {
    seq![leader] + partitions.map_values(|v: Vault| v.index)
}

/// Where no two vaults have the same index, none have after some of the
/// partitions were taken out.
pub proof fn lemma_removal_keeps_indices_unique(
    leader: usize,
    partitions: Seq<Vault>,
    keep: spec_fn(Vault) -> bool,
)
    requires
        indices_of(leader, partitions).no_duplicates(),
    ensures
        indices_of(leader, partitions.filter(keep)).no_duplicates(),
    decreases partitions.len(),
{
    let all = indices_of(leader, partitions);
    if partitions.len() == 0 {
        reveal(Seq::filter);
    } else {
        let head = partitions.drop_last();
        let last = partitions.last();
        let head_all = indices_of(leader, head);
        assert forall|i: int, j: int|
            0 <= i < head_all.len() && 0 <= j < head_all.len() && i != j implies head_all[i]
            != head_all[j] by {
            assert(head_all[i] == all[i]);
            assert(head_all[j] == all[j]);
        }
        lemma_removal_keeps_indices_unique(leader, head, keep);
        assert(partitions =~= head.push(last));
        head.lemma_filter_push(last, keep);
        if keep(last) {
            let kept = head.filter(keep);
            let kept_all = indices_of(leader, kept);
            let now = indices_of(leader, partitions.filter(keep));
            assert(now =~= kept_all.push(last.index));
            assert(all[partitions.len() as int] == last.index);
            assert forall|i: int| 0 <= i < kept_all.len() implies kept_all[i] != last.index by {
                if i == 0 {
                    assert(all[0] == leader);
                } else {
                    head.lemma_filter_contains_rev(keep, kept[i - 1]);
                    let m = choose|m: int| 0 <= m < head.len() && head[m] == kept[i - 1];
                    assert(all[m + 1] == head[m].index);
                }
            }
        }
    }
}

/// Where no two vaults have the same index, none have after a partition
/// was added whose index is beyond all of theirs.
pub proof fn lemma_addition_keeps_indices_unique(
    leader: usize,
    partitions: Seq<Vault>,
    partition: Vault,
)
    ensures
        indices_of(leader, partitions).no_duplicates() && (forall|i: int|
            0 <= i < indices_of(leader, partitions).len() ==> indices_of(leader, partitions)[i]
                < partition.index) ==> indices_of(leader, partitions.push(partition)).no_duplicates(),
{
    let all = indices_of(leader, partitions);
    let now = indices_of(leader, partitions.push(partition));
    assert(now =~= all.push(partition.index));
}

/// However partitions are added to a vault and removed from it, no two
/// vaults of the tree get the same index: if they are distinct at first,
/// and each state of `history` comes from the one before it by taking
/// partitions out or by adding one whose index is beyond all others, they
/// are distinct in every state.
pub proof fn lemma_indices_stay_unique(history: Seq<Vault>)
    requires
        history.len() > 0,
        history[0].has_unique_indices(),
        forall|k: int|
            0 <= k < history.len() - 1 ==> is_change(#[trigger] history[k], history[k + 1]),
    ensures
        forall|k: int| 0 <= k < history.len() ==> (#[trigger] history[k]).has_unique_indices(),
    decreases history.len(),
{
    if history.len() > 1 {
        let head = history.drop_last();
        assert forall|k: int| 0 <= k < head.len() - 1 implies is_change(
            #[trigger] head[k],
            head[k + 1],
        ) by {
            assert(is_change(history[k], history[k + 1]));
        }
        lemma_indices_stay_unique(head);
        let before = history[history.len() - 2];
        let after = history.last();
        assert(head[history.len() - 2].has_unique_indices());
        assert(is_change(before, after));
        if is_removal(before, after) {
            let index = choose|index: usize|
                after.partitions@ == before.partitions@.filter(not_at(index));
            lemma_removal_keeps_indices_unique(before.index, before.partitions@, not_at(index));
        } else {
            lemma_addition_keeps_indices_unique(
                before.index,
                before.partitions@,
                after.partitions@.last(),
            );
            assert(after.partitions@ =~= before.partitions@.push(after.partitions@.last()));
        }
        assert forall|k: int| 0 <= k < history.len() implies (
        #[trigger] history[k]).has_unique_indices() by {
            if k < history.len() - 1 {
                assert(head[k].has_unique_indices());
            }
        }
    }
}

/// Whether `after` is `before` without the partitions of some index.
pub open spec fn is_removal(before: Vault, after: Vault) -> bool {
    after.index == before.index && exists|index: usize|
        after.partitions@ == before.partitions@.filter(not_at(index))
}

/// Whether `after` is `before` with one more partition, whose index is
/// beyond all those of `before`.
pub open spec fn is_addition(before: Vault, after: Vault) -> bool {
    &&& after.index == before.index
    &&& after.partitions@.len() == before.partitions@.len() + 1
    &&& after.partitions@.drop_last() == before.partitions@
    &&& forall|i: int|
        0 <= i < before.indices().len() ==> before.indices()[i] < after.partitions@.last().index
}

/// Whether `after` is what adding or removing a partition makes of
/// `before`.
pub open spec fn is_change(before: Vault, after: Vault) -> bool {
    is_removal(before, after) || is_addition(before, after)
}

} // verus!
