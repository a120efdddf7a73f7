//! The vault as it is kept in its configuration file: one record for each
//! vault, the leader and its partitions alike.

use crate::error::Error;
use crate::partitions::{candidates, reports, resolution, selecting, Resolution};
use crate::text::copy_optional_text;
use crate::vault::{Vault, VaultKind};
use vstd::multiset::*;
use vstd::prelude::*;
use vstd::seq_lib::*;
use vstd::string::*;

verus! {

/// Whether `node` says of a vault what `source` says, as a vault of the
/// kind `kind` whose configuration file is at `path`.
pub open spec fn is_node_of(node: Vault, source: Vault, kind: VaultKind, path: Seq<char>) -> bool {
    &&& node.name == source.name
    &&& node.index == source.index
    &&& node.secrets_dir == source.secrets_dir
    &&& node.gpg_keys_dir == source.gpg_keys_dir
    &&& node.recipients_file == source.recipients_file
    &&& node.kind == kind
    &&& (node.vault_path matches Some(p) && p@ == path)
}

/// Whether `record` is the record of `vault`: what the vault says of
/// itself, without its partitions.
pub open spec fn is_record_of(record: Vault, vault: Vault) -> bool {
    &&& record.name == vault.name
    &&& record.kind == vault.kind
    &&& record.index == vault.index
    &&& record.vault_path == vault.vault_path
    &&& record.secrets_dir == vault.secrets_dir
    &&& record.gpg_keys_dir == vault.gpg_keys_dir
    &&& record.recipients_file == vault.recipients_file
    &&& record.partitions@.len() == 0
}

/// Whether `records` are the records of `tree`: that of the leader, then
/// those of its partitions in their order.
pub open spec fn are_records_of(records: Seq<Vault>, tree: Vault) -> bool {
    &&& records.len() == tree.partitions@.len() + 1
    &&& is_record_of(records[0], tree)
    &&& forall|k: int|
        0 <= k < tree.partitions@.len() ==> is_record_of(
            #[trigger] records[k + 1],
            tree.partitions@[k],
        )
}

/// Whether the vaults come in ascending order of their indices.
pub open spec fn sorted_by_index(vaults: Seq<Vault>) -> bool {
    forall|i: int, j: int|
        0 <= i < j < vaults.len() ==> (#[trigger] vaults[i]).index <= (#[trigger] vaults[j]).index
}

/// The place at which a vault of the index `index` goes into a list:
/// behind the vaults at its beginning whose index is not beyond `index`.
pub open spec fn place_of(list: Seq<Vault>, index: usize) -> int
    decreases list.len(),
{
    if list.len() == 0 || list[0].index > index {
        0
    } else {
        1 + place_of(list.drop_first(), index)
    }
}

/// Vaults put in ascending order of their indices, one after the other,
/// each behind those that are in order already and not beyond it: vaults
/// of the same index stay in the order in which they came.
pub open spec fn ordered_by_index(vaults: Seq<Vault>) -> Seq<Vault>
    decreases vaults.len(),
{
    if vaults.len() == 0 {
        vaults
    } else {
        let head = ordered_by_index(vaults.drop_last());
        head.insert(place_of(head, vaults.last().index), vaults.last())
    }
}

/// Whether `ordered` is `vaults` put in ascending order of their indices.
/// Vaults that are in that order already stay as they are.
pub open spec fn is_ordering_of(ordered: Seq<Vault>, vaults: Seq<Vault>) -> bool {
    &&& sorted_by_index(ordered)
    &&& ordered.to_multiset() == vaults.to_multiset()
    &&& sorted_by_index(vaults) ==> ordered == vaults
}

/// Whether `nodes` are the partitions that `records` stand for, in their
/// order, where the configuration file is at `path`.
pub open spec fn are_partitions_of(nodes: Seq<Vault>, records: Seq<Vault>, path: Seq<char>) -> bool {
    &&& nodes.len() == records.len()
    &&& forall|j: int|
        0 <= j < records.len() ==> is_node_of(
            #[trigger] nodes[j],
            records[j],
            VaultKind::Partition,
            path,
        ) && nodes[j].partitions@.len() == 0
}

/// Whether `tree` is what the records of the configuration file at `path`
/// stand for, with the vault of the index `index` as the leader: the
/// first record with that index is the leader, and all others are its
/// partitions, in ascending order of their indices.
pub open spec fn loads(records: Seq<Vault>, index: usize, path: Seq<char>, tree: Vault) -> bool {
    exists|at: int, nodes: Seq<Vault>|
        {
            &&& 0 <= at < records.len()
            &&& records[at].index == index
            &&& forall|j: int| 0 <= j < at ==> records[j].index != index
            &&& is_node_of(tree, records[at], VaultKind::Leader, path)
            &&& #[trigger] are_partitions_of(nodes, records.remove(at), path)
            &&& tree.partitions@ == ordered_by_index(nodes)
            &&& is_ordering_of(tree.partitions@, nodes)
        }
}

/// What `source` says of a vault, as a vault of the kind `kind` whose
/// configuration file is at `path`, without partitions.
fn node_of(source: &Vault, kind: VaultKind, path: &str) -> (node: Vault)
    ensures
        is_node_of(node, *source, kind, path@),
        node.partitions@.len() == 0,
{
    Vault {
        name: copy_optional_text(&source.name),
        kind,
        index: source.index,
        partitions: Vec::new(),
        vault_path: Some(path.to_owned()),
        secrets_dir: source.secrets_dir.clone(),
        gpg_keys_dir: copy_optional_text(&source.gpg_keys_dir),
        recipients_file: source.recipients_file.clone(),
    }
}

/// The record of a vault.
fn record_of(vault: &Vault) -> (record: Vault)
    ensures
        is_record_of(record, *vault),
{
    Vault {
        name: copy_optional_text(&vault.name),
        kind: vault.kind,
        index: vault.index,
        partitions: Vec::new(),
        vault_path: copy_optional_text(&vault.vault_path),
        secrets_dir: vault.secrets_dir.clone(),
        gpg_keys_dir: copy_optional_text(&vault.gpg_keys_dir),
        recipients_file: vault.recipients_file.clone(),
    }
}

/// Putting one more in adds it to what a list holds.
pub proof fn lemma_insert_to_multiset(list: Seq<Vault>, at: int, vault: Vault)
    requires
        0 <= at <= list.len(),
    ensures
        list.insert(at, vault).to_multiset() == list.to_multiset().insert(vault),
{
    broadcast use group_to_multiset_ensures;
    broadcast use vstd::multiset::group_multiset_axioms;

    let longer = list.insert(at, vault);
    assert(longer.remove(at) =~= list);
    assert(longer[at] == vault);
    assert(longer.remove(at).to_multiset() =~= longer.to_multiset().remove(vault));
    assert(longer.contains(vault));
    assert(longer.to_multiset().count(vault) > 0);
    assert(longer.to_multiset() =~= longer.to_multiset().remove(vault).insert(vault));
}

/// Puts a vault into a list that is in ascending order of indices: behind
/// all those whose index is not beyond its own.
pub fn insert_by_index(list: &mut Vec<Vault>, vault: Vault)
    requires
        sorted_by_index(old(list)@),
    ensures
        final(list)@ == old(list)@.insert(place_of(old(list)@, vault.index), vault),
        sorted_by_index(final(list)@),
        final(list)@.to_multiset() == old(list)@.to_multiset().insert(vault),
        (forall|i: int| 0 <= i < old(list)@.len() ==> old(list)@[i].index <= vault.index)
            ==> final(list)@ == old(list)@.push(vault),
{
    let ghost before = list@;
    let mut at: usize = 0;
    proof {
        assert(before.skip(0) =~= before);
    }
    while at < list.len() && list[at].index <= vault.index
        invariant
            at <= list.len(),
            list@ == before,
            forall|i: int| 0 <= i < at ==> before[i].index <= vault.index,
            place_of(before, vault.index) == at + place_of(before.skip(at as int), vault.index),
        decreases list.len() - at,
    {
        proof {
            assert(before.skip(at as int)[0] == before[at as int]);
            assert(before.skip(at as int).drop_first() =~= before.skip(at + 1));
        }
        at += 1;
    }
    proof {
        if at < before.len() {
            assert(before.skip(at as int)[0] == before[at as int]);
        }
        assert(place_of(before, vault.index) == at);
    }
    list.insert(at, vault);
    proof {
        lemma_insert_to_multiset(before, at as int, vault);
        let after = list@;
        assert forall|i: int, j: int| 0 <= i < j < after.len() implies (
        #[trigger] after[i]).index <= (#[trigger] after[j]).index by {
            if j < at {
                assert(after[i] == before[i] && after[j] == before[j]);
            } else if j == at {
                assert(after[i] == before[i]);
            } else if i < at {
                assert(after[i] == before[i] && after[j] == before[j - 1]);
            } else if i == at {
                assert(after[j] == before[j - 1]);
                assert(before[at as int].index > vault.index);
                if j - 1 > at {
                    assert(before[at as int].index <= before[j - 1].index);
                }
            } else {
                assert(after[i] == before[i - 1] && after[j] == before[j - 1]);
            }
        }
        if forall|i: int| 0 <= i < before.len() ==> before[i].index <= vault.index {
            assert(at == before.len());
            assert(after =~= before.push(vault));
        }
    }
}

/// Puts vaults in ascending order of their indices.
pub fn sort_by_index(vaults: Vec<Vault>) -> (ordered: Vec<Vault>)
    ensures
        ordered@ == ordered_by_index(vaults@),
        is_ordering_of(ordered@, vaults@),
{
    broadcast use group_to_multiset_ensures;

    let mut rest = vaults;
    let mut ordered: Vec<Vault> = Vec::new();
    let ghost mut done: int = 0;
    proof {
        assert(vaults@.take(0) =~= Seq::<Vault>::empty());
        assert(vaults@.skip(0) =~= vaults@);
        assert(ordered@ =~= vaults@.take(0));
    }
    while rest.len() > 0
        invariant
            0 <= done <= vaults@.len(),
            rest@ == vaults@.skip(done),
            ordered@ == ordered_by_index(vaults@.take(done)),
            sorted_by_index(ordered@),
            ordered@.to_multiset() == vaults@.take(done).to_multiset(),
            sorted_by_index(vaults@) ==> ordered@ == vaults@.take(done),
        decreases rest.len(),
    {
        let ghost before = ordered@;
        let vault = rest.remove(0);
        proof {
            assert(vault == vaults@[done]);
            assert(rest@ =~= vaults@.skip(done + 1));
            assert(vaults@.take(done + 1) =~= vaults@.take(done).push(vault));
            assert(vaults@.take(done + 1).drop_last() =~= vaults@.take(done));
            to_multiset_build(vaults@.take(done), vault);
        }
        insert_by_index(&mut ordered, vault);
        proof {
            if sorted_by_index(vaults@) {
                assert forall|i: int| 0 <= i < before.len() implies before[i].index
                    <= vault.index by {
                    assert(before[i] == vaults@[i]);
                }
            }
            done = done + 1;
        }
    }
    proof {
        assert(vaults@.take(done) =~= vaults@);
    }
    ordered
}

impl Vault {
    /// The records of the vault and its partitions, as they are written to
    /// the configuration file: that of the vault itself first.
    pub fn to_records(&self) -> (records: Vec<Vault>)
        ensures
            are_records_of(records@, *self),
    {
        let mut records: Vec<Vault> = Vec::new();
        records.push(record_of(self));
        let mut k: usize = 0;
        while k < self.partitions.len()
            invariant
                k <= self.partitions.len(),
                records@.len() == k + 1,
                is_record_of(records@[0], *self),
                forall|i: int|
                    0 <= i < k ==> is_record_of(#[trigger] records@[i + 1], self.partitions@[i]),
            decreases self.partitions.len() - k,
        {
            let ghost before = records@;
            records.push(record_of(&self.partitions[k]));
            proof {
                assert forall|i: int| 0 <= i < k + 1 implies is_record_of(
                    #[trigger] records@[i + 1],
                    self.partitions@[i],
                ) by {
                    if i < k {
                        assert(records@[i + 1] == before[i + 1]);
                    }
                }
            }
            k += 1;
        }
        records
    }

    /// The vault that the records of the configuration file at
    /// `vault_path` stand for, with the vault that `selector` stands for
    /// as the leader: see `loads`. Where the selector stands for no vault,
    /// or for more than one, that is reported as for a partition.
    pub fn from_records(records: &[Vault], selector: &str, vault_path: &str) -> (r: Result<
        Vault,
        Error,
    >)
        ensures
            match resolution(selector@, records@, None) {
                Resolution::Found(index) => (r matches Ok(tree) && loads(
                    records@,
                    index,
                    vault_path@,
                    tree,
                )),
                outcome => (r matches Err(e) && reports(e, outcome, selector@)),
            },
            records@.map_values(|v: Vault| v.index).no_duplicates() ==> (r matches Ok(tree)
                ==> tree.is_well_formed()),
    {
        let index = match Vault::partition_index(selector, records, None) {
            Ok(index) => index,
            Err(e) => {
                return Err(e);
            },
        };
        proof {
            lemma_found_is_there(selector@, records@, index);
        }
        let mut at: usize = 0;
        while at < records.len() && records[at].index != index
            invariant
                at <= records.len(),
                forall|j: int| 0 <= j < at ==> records@[j].index != index,
            decreases records.len() - at,
        {
            at += 1;
        }
        let ghost others = records@.remove(at as int);
        let mut nodes: Vec<Vault> = Vec::new();
        let mut j: usize = 0;
        while j < records.len()
            invariant
                j <= records.len(),
                at < records.len(),
                others == records@.remove(at as int),
                nodes@.len() == (if j <= at {
                    j as int
                } else {
                    j - 1
                }),
                forall|k: int|
                    0 <= k < nodes@.len() ==> is_node_of(
                        #[trigger] nodes@[k],
                        others[k],
                        VaultKind::Partition,
                        vault_path@,
                    ) && nodes@[k].partitions@.len() == 0,
            decreases records.len() - j,
        {
            if j != at {
                let ghost before = nodes@;
                nodes.push(node_of(&records[j], VaultKind::Partition, vault_path));
                proof {
                    let k = before.len() as int;
                    assert(others[k] == records@[j as int]);
                    assert forall|i: int| 0 <= i < nodes@.len() implies is_node_of(
                        #[trigger] nodes@[i],
                        others[i],
                        VaultKind::Partition,
                        vault_path@,
                    ) && nodes@[i].partitions@.len() == 0 by {
                        if i < k {
                            assert(nodes@[i] == before[i]);
                        }
                    }
                }
            }
            j += 1;
        }
        let ghost nodes_before = nodes@;
        let mut tree = node_of(&records[at], VaultKind::Leader, vault_path);
        tree.partitions = sort_by_index(nodes);
        proof {
            assert(are_partitions_of(nodes_before, others, vault_path@));
            assert(loads(records@, index, vault_path@, tree));
            if records@.map_values(|v: Vault| v.index).no_duplicates() {
                lemma_loaded_is_well_formed(records@, index, vault_path@, tree);
            }
        }
        Ok(tree)
    }
}

/// What a selector was found to stand for is the index of one of the
/// vaults.
pub proof fn lemma_found_is_there(selector: Seq<char>, vaults: Seq<Vault>, index: usize)
    requires
        resolution(selector, vaults, None) == Resolution::Found(index),
    ensures
        exists|i: int| 0 <= i < vaults.len() && vaults[i].index == index,
{
    if crate::text::index_of_text(selector).is_none() {
        let kept = vaults.filter(selecting(selector));
        assert(candidates(vaults, selector)[0] == kept[0].index);
        assert(kept.contains(kept[0]));
        vaults.lemma_filter_contains_rev(selecting(selector), kept[0]);
        let i = choose|i: int| 0 <= i < vaults.len() && vaults[i] == kept[0];
        assert(vaults[i].index == index);
    }
}

/// What is read from records of which no two have the same index is a
/// well-formed vault.
pub proof fn lemma_loaded_is_well_formed(
    records: Seq<Vault>,
    index: usize,
    path: Seq<char>,
    tree: Vault,
)
    requires
        loads(records, index, path, tree),
        records.map_values(|v: Vault| v.index).no_duplicates(),
    ensures
        tree.is_well_formed(),
{
    broadcast use group_to_multiset_ensures;

    let (at, nodes) = choose|at: int, nodes: Seq<Vault>|
        {
            &&& 0 <= at < records.len()
            &&& records[at].index == index
            &&& forall|j: int| 0 <= j < at ==> records[j].index != index
            &&& is_node_of(tree, records[at], VaultKind::Leader, path)
            &&& #[trigger] are_partitions_of(nodes, records.remove(at), path)
            &&& tree.partitions@ == ordered_by_index(nodes)
            &&& is_ordering_of(tree.partitions@, nodes)
        };
    let all = records.map_values(|v: Vault| v.index);
    let others = records.remove(at);
    let parts = tree.partitions@;
    // The place among the records of each node.
    let place = |j: int| if j < at { j } else { j + 1 };
    assert forall|j: int| 0 <= j < nodes.len() implies nodes[j].index == all[place(j)]
        && place(j) != at && 0 <= place(j) < records.len() by {
        assert(is_node_of(nodes[j], others[j], VaultKind::Partition, path));
        assert(others[j] == records[place(j)]);
    }
    assert forall|i: int, j: int| 0 <= i < nodes.len() && 0 <= j < nodes.len() && i != j implies nodes[i]
        != nodes[j] by {
        assert(all[place(i)] != all[place(j)]);
    }
    nodes.lemma_multiset_has_no_duplicates();
    parts.lemma_multiset_has_no_duplicates_conv();
    // Each partition of the tree is one of the nodes.
    assert forall|i: int| 0 <= i < parts.len() implies exists|j: int|
        0 <= j < nodes.len() && nodes[j] == #[trigger] parts[i] by {
        assert(parts.contains(parts[i]));
        assert(nodes.to_multiset().count(parts[i]) > 0);
        assert(nodes.contains(parts[i]));
    }
    assert forall|i: int| 0 <= i < parts.len() implies {
        &&& (#[trigger] parts[i]).kind == VaultKind::Partition
        &&& parts[i].partitions@.len() == 0
        &&& parts[i].shares_path_with(tree)
    } by {
        let j = choose|j: int| 0 <= j < nodes.len() && nodes[j] == parts[i];
        assert(is_node_of(nodes[j], others[j], VaultKind::Partition, path));
    }
    let indices = tree.indices();
    assert forall|a: int, b: int|
        0 <= a < indices.len() && 0 <= b < indices.len() && a != b implies indices[a]
        != indices[b] by {
        if a == 0 || b == 0 {
            let i = if a == 0 {
                b - 1
            } else {
                a - 1
            };
            let j = choose|j: int| 0 <= j < nodes.len() && nodes[j] == parts[i];
            assert(indices[i + 1] == parts[i].index);
            assert(indices[0] == tree.index);
            assert(all[place(j)] != all[at]);
        } else {
            let i = choose|i: int| 0 <= i < nodes.len() && nodes[i] == parts[a - 1];
            let j = choose|j: int| 0 <= j < nodes.len() && nodes[j] == parts[b - 1];
            assert(parts[a - 1] != parts[b - 1]);
            assert(i != j);
            assert(all[place(i)] != all[place(j)]);
            assert(indices[a] == parts[a - 1].index);
            assert(indices[b] == parts[b - 1].index);
        }
    }
}

/// A vault that is written to its configuration file and read again is
/// the vault that it was, with its partitions in ascending order of
/// their indices: where no two vaults of `tree` have the same index,
/// `records` are its records and `loaded` is what they stand for with the
/// vault of the leader's index as the leader, `loaded` says of the leader
/// what `tree` says, and its partitions are those of `tree`, put in
/// order. Where they were in order, they are the same one by one.
pub proof fn lemma_records_give_the_vault_back(
    tree: Vault,
    records: Seq<Vault>,
    path: Seq<char>,
    loaded: Vault,
)
    requires
        tree.has_unique_indices(),
        are_records_of(records, tree),
        loads(records, tree.index, path, loaded),
    ensures
        is_node_of(loaded, tree, VaultKind::Leader, path),
        exists|nodes: Seq<Vault>| #[trigger]
            are_partitions_of(nodes, tree.partitions@, path) && loaded.partitions@
                == ordered_by_index(nodes) && is_ordering_of(loaded.partitions@, nodes),
        sorted_by_index(tree.partitions@) ==> are_partitions_of(
            loaded.partitions@,
            tree.partitions@,
            path,
        ),
{
    let (at, nodes) = choose|at: int, nodes: Seq<Vault>|
        {
            &&& 0 <= at < records.len()
            &&& records[at].index == tree.index
            &&& forall|j: int| 0 <= j < at ==> records[j].index != tree.index
            &&& is_node_of(loaded, records[at], VaultKind::Leader, path)
            &&& #[trigger] are_partitions_of(nodes, records.remove(at), path)
            &&& loaded.partitions@ == ordered_by_index(nodes)
            &&& is_ordering_of(loaded.partitions@, nodes)
        };
    let all = tree.indices();
    if at > 0 {
        assert(is_record_of(records[(at - 1) + 1], tree.partitions@[at - 1]));
        assert(all[at] == tree.partitions@[at - 1].index);
        assert(all[0] == tree.index);
    }
    assert(at == 0);
    let others = records.remove(0);
    assert forall|j: int| 0 <= j < tree.partitions@.len() implies is_node_of(
        #[trigger] nodes[j],
        tree.partitions@[j],
        VaultKind::Partition,
        path,
    ) && nodes[j].partitions@.len() == 0 by {
        assert(others[j] == records[j + 1]);
        assert(is_record_of(records[j + 1], tree.partitions@[j]));
        assert(is_node_of(nodes[j], others[j], VaultKind::Partition, path));
    }
    assert(are_partitions_of(nodes, tree.partitions@, path));
    if sorted_by_index(tree.partitions@) {
        assert forall|i: int, j: int| 0 <= i < j < nodes.len() implies (#[trigger] nodes[i]).index
            <= (#[trigger] nodes[j]).index by {
            assert(nodes[i].index == tree.partitions@[i].index);
            assert(nodes[j].index == tree.partitions@[j].index);
        }
        assert(loaded.partitions@ == nodes);
    }
}

} // verus!
