//! The list of instances that processes keep in a common file.

use vstd::prelude::*;

use crate::shmem::{object_name, shm_name_for_id};

verus! {

/// An instance in the list.
pub struct FileRegistryEntry {
    pub id: u32,
    pub name: String,
    pub shm_name: String,
    pub pid: u32,
}

/// The list.
pub struct FileRegistry {
    pub instances: Vec<FileRegistryEntry>,
}

/// The entries whose flag is set, in their order.
pub open spec fn kept(entries: Seq<FileRegistryEntry>, flags: Seq<bool>) -> Seq<FileRegistryEntry>
    decreases entries.len(),
{
    if entries.len() == 0 {
        seq![]
    } else {
        let rest = kept(entries.drop_last(), flags);
        if flags[entries.len() - 1] {
            rest.push(entries.last())
        } else {
            rest
        }
    }
}

/// The flags of the entries that are not those of the instance `id`.
pub open spec fn others(entries: Seq<FileRegistryEntry>, id: u32) -> Seq<bool> {
    Seq::new(entries.len(), |i: int| entries[i].id != id)
}

impl Default for FileRegistry {
    /// An empty list.
    fn default() -> (registry: Self)
        ensures
            registry.instances@ == Seq::<FileRegistryEntry>::empty(),
    {
        FileRegistry { instances: Vec::new() }
    }
}

impl FileRegistry {
    /// The list that was read, or an empty one where none could be.
    pub fn load(parsed: Option<FileRegistry>) -> (registry: Self)
        ensures
            registry.instances@ == (match parsed {
                Some(found) => found.instances@,
                None => Seq::<FileRegistryEntry>::empty(),
            }),
    {
        match parsed {
            Some(found) => found,
            None => FileRegistry { instances: Vec::new() },
        }
    }

    /// Adds an instance of the process `pid`, after the entries whose processes are gone have
    /// been dropped. `alive` says of each entry whether its process is there.
    pub fn add(&mut self, id: u32, name: &str, pid: u32, alive: &Vec<bool>)
        requires
            alive@.len() == old(self).instances@.len(),
        ensures
            final(self).instances@.len() == kept(old(self).instances@, alive@).len() + 1,
            final(self).instances@.drop_last() == kept(old(self).instances@, alive@),
            final(self).instances@.last().id == id,
            final(self).instances@.last().name@ == name@,
            final(self).instances@.last().shm_name@ == object_name(id),
            final(self).instances@.last().pid == pid,
    {
        self.remove_stale_pids(alive);
        let ghost before = self.instances@;
        self.instances.push(
            FileRegistryEntry { id, name: name.to_owned(), shm_name: shm_name_for_id(id), pid },
        );
        assert(self.instances@.drop_last() =~= before);
    }

    /// Drops the entries of an instance.
    pub fn remove(&mut self, id: u32)
        ensures
            final(self).instances@ == kept(
                old(self).instances@,
                others(old(self).instances@, id),
            ),
    {
        let ghost all = self.instances@;
        let ghost flags = others(all, id);
        let ghost mut passed: int = 0;
        let mut i: usize = 0;
        assert(all.take(0) =~= seq![]);
        while i < self.instances.len()
            invariant
                0 <= passed <= all.len(),
                flags == others(all, id),
                i == kept(all.take(passed), flags).len(),
                self.instances@ == kept(all.take(passed), flags) + all.skip(passed),
            decreases self.instances.len() - i,
        {
            proof {
                assert(self.instances@.len() == i + (all.len() - passed));
                assert(passed < all.len());
                assert(self.instances@[i as int] == all[passed]);
                assert(all.take(passed + 1).drop_last() =~= all.take(passed));
            }
            if self.instances[i].id == id {
                self.instances.remove(i);
            } else {
                i = i + 1;
            }
            proof {
                passed = passed + 1;
                assert(self.instances@ =~= kept(all.take(passed), flags) + all.skip(passed));
            }
        }
        assert(all.skip(passed).len() == 0);
        assert(all.take(passed) =~= all);
        assert(self.instances@ =~= kept(all, flags));
    }

    /// Drops the entries whose processes are gone. `alive` says of each entry whether its
    /// process is there.
    pub fn remove_stale_pids(&mut self, alive: &Vec<bool>)
        requires
            alive.len() == old(self).instances.len(),
        ensures
            final(self).instances@ == kept(old(self).instances@, alive@),
    {
        let ghost all = self.instances@;
        let mut passed: usize = 0;
        let mut i: usize = 0;
        assert(all.take(0) =~= seq![]);
        while i < self.instances.len()
            invariant
                passed <= all.len(),
                alive.len() == all.len(),
                i == kept(all.take(passed as int), alive@).len(),
                self.instances@ == kept(all.take(passed as int), alive@) + all.skip(passed as int),
            decreases self.instances.len() - i,
        {
            proof {
                assert(self.instances@.len() == i + (all.len() - passed));
                assert(passed < all.len());
                assert(all.take(passed + 1).drop_last() =~= all.take(passed as int));
            }
            if alive[passed] {
                i = i + 1;
            } else {
                self.instances.remove(i);
            }
            passed = passed + 1;
            assert(self.instances@ =~= kept(all.take(passed as int), alive@) + all.skip(
                passed as int,
            ));
        }
        assert(all.skip(passed as int).len() == 0);
        assert(all.take(passed as int) =~= all);
        assert(self.instances@ =~= kept(all, alive@));
    }
}

/// Is `entry` one of the entries whose flag is set?
pub open spec fn flagged(
    entries: Seq<FileRegistryEntry>,
    flags: Seq<bool>,
    entry: FileRegistryEntry,
) -> bool {
    exists|i: int| 0 <= i < entries.len() && flags[i] && entries[i] == entry
}

/// What is kept are entries whose flag is set, and every such entry is kept.
pub proof fn kept_are_the_flagged(entries: Seq<FileRegistryEntry>, flags: Seq<bool>)
    requires
        flags.len() == entries.len(),
    ensures
        forall|i: int|
            0 <= i < entries.len() && flags[i] ==> kept(entries, flags).contains(
                #[trigger] entries[i],
            ),
        forall|j: int|
            0 <= j < kept(entries, flags).len() ==> flagged(
                entries,
                flags,
                #[trigger] kept(entries, flags)[j],
            ),
        kept(entries, flags).len() <= entries.len(),
    decreases entries.len(),
{
    if entries.len() > 0 {
        let rest = entries.drop_last();
        let shorter = flags.drop_last();
        let last = entries.len() - 1;
        kept_depends_on_prefix(rest, flags, shorter);
        kept_are_the_flagged(rest, shorter);
        let before = kept(rest, shorter);
        let after = kept(entries, flags);
        assert forall|i: int| 0 <= i < entries.len() && flags[i] implies after.contains(
            #[trigger] entries[i],
        ) by {
            if i < last {
                assert(rest[i] == entries[i]);
                let j = choose|j: int| 0 <= j < before.len() && before[j] == entries[i];
                assert(after[j] == entries[i]);
            } else {
                assert(after[after.len() - 1] == entries[i]);
            }
        }
        assert forall|j: int| 0 <= j < after.len() implies flagged(
            entries,
            flags,
            #[trigger] after[j],
        ) by {
            if j < before.len() {
                assert(flagged(rest, shorter, before[j]));
                let i = choose|i: int| 0 <= i < rest.len() && shorter[i] && rest[i] == before[j];
                assert(flags[i] && entries[i] == after[j]);
            } else {
                assert(flags[last] && entries[last] == after[j]);
            }
        }
    }
}

/// Only the flags of the entries themselves matter.
proof fn kept_depends_on_prefix(entries: Seq<FileRegistryEntry>, f: Seq<bool>, g: Seq<bool>)
    requires
        forall|i: int| 0 <= i < entries.len() ==> f[i] == g[i],
    ensures
        kept(entries, f) == kept(entries, g),
    decreases entries.len(),
{
    if entries.len() > 0 {
        kept_depends_on_prefix(entries.drop_last(), f, g);
    }
}

/// After an instance was removed no entry of it is left, and no entry of another is lost.
pub proof fn removed_instance_is_gone(entries: Seq<FileRegistryEntry>, id: u32)
    ensures
        forall|j: int|
            0 <= j < kept(entries, others(entries, id)).len() ==> (#[trigger] kept(
                entries,
                others(entries, id),
            )[j]).id != id,
        forall|i: int|
            0 <= i < entries.len() && (#[trigger] entries[i]).id != id ==> kept(
                entries,
                others(entries, id),
            ).contains(entries[i]),
{
    kept_are_the_flagged(entries, others(entries, id));
}

/// Removing an instance that is not in the list changes nothing, and so does dropping the
/// stale entries when there are none.
pub proof fn keeping_all_changes_nothing(entries: Seq<FileRegistryEntry>, flags: Seq<bool>)
    requires
        flags.len() == entries.len(),
        forall|i: int| 0 <= i < flags.len() ==> #[trigger] flags[i],
    ensures
        kept(entries, flags) == entries,
    decreases entries.len(),
{
    if entries.len() > 0 {
        kept_depends_on_prefix(entries.drop_last(), flags, flags.drop_last());
        keeping_all_changes_nothing(entries.drop_last(), flags.drop_last());
        assert(flags[entries.len() - 1]);
        assert(entries.drop_last().push(entries.last()) =~= entries);
    } else {
        assert(kept(entries, flags) =~= entries);
    }
}

/// An instance that was added and then removed leaves the list as it was.
pub proof fn added_then_removed(entries: Seq<FileRegistryEntry>, entry: FileRegistryEntry)
    requires
        forall|i: int| 0 <= i < entries.len() ==> (#[trigger] entries[i]).id != entry.id,
    ensures
        kept(entries.push(entry), others(entries.push(entry), entry.id)) == entries,
{
    let longer = entries.push(entry);
    assert(longer.drop_last() =~= entries);
    kept_depends_on_prefix(entries, others(longer, entry.id), others(entries, entry.id));
    keeping_all_changes_nothing(entries, others(entries, entry.id));
}

/// Entries are kept or dropped one after the other, each by its own flag, and those that are
/// kept stay in their order and as they are.
pub proof fn entries_are_kept_in_order(
    entries: Seq<FileRegistryEntry>,
    flags: Seq<bool>,
    entry: FileRegistryEntry,
    flag: bool,
)
    requires
        flags.len() == entries.len(),
    ensures
        kept(Seq::empty(), Seq::empty()) == Seq::<FileRegistryEntry>::empty(),
        flag ==> kept(entries.push(entry), flags.push(flag)) == kept(entries, flags).push(entry),
        !flag ==> kept(entries.push(entry), flags.push(flag)) == kept(entries, flags),
{
    let longer = entries.push(entry);
    assert(longer.drop_last() =~= entries);
    kept_depends_on_prefix(entries, flags.push(flag), flags);
}

/// The entries of other instances are those with other numbers, whatever else they hold.
pub proof fn others_are_told_by_number(entries: Seq<FileRegistryEntry>, id: u32, i: int)
    requires
        0 <= i < entries.len(),
    ensures
        others(entries, id).len() == entries.len(),
        others(entries, id)[i] <==> entries[i].id != id,
{
}

} // verus!
