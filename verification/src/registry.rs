//! The instances of one process, each with a number, a name and its spectrum.
//!
//! `S` is what stands for a spectrum, so that instances can share one.

use std::collections::HashMap;

use vstd::prelude::*;
use vstd::std_specs::iter::IteratorSpec;

use crate::text::{decimal_chars, labelled, labels_are_distinct};

verus! {

/// The number of an instance.
#[derive(Clone, Copy, PartialEq, Eq, Hash, Debug, Structural)]
pub struct InstanceId(pub u32);

/// What is known of an instance.
#[verifier::ext_equal]
pub struct InstanceView<S> {
    pub name: Seq<char>,
    pub spectrum: S,
}

/// The instances by their numbers, and the number that was given out last.
#[verifier::ext_equal]
#[verifier::reject_recursive_types(S)]
pub struct RegistryView<S> {
    pub instances: Map<u32, InstanceView<S>>,
    pub next_id: u32,
}

/// What is known of an instance.
pub struct InstanceEntry<S> {
    name: String,
    spectrum: S,
}

/// The instances.
#[verifier::reject_recursive_types(S)]
pub struct RegistryInner<S> {
    instances: HashMap<u32, InstanceEntry<S>>,
    next_id: u32,
}

impl<S> View for InstanceEntry<S> {
    type V = InstanceView<S>;

    closed spec fn view(&self) -> InstanceView<S> {
        InstanceView { name: self.name@, spectrum: self.spectrum }
    }
}

impl<S> View for RegistryInner<S> {
    type V = RegistryView<S>;

    closed spec fn view(&self) -> RegistryView<S> {
        RegistryView {
            instances: self.instances@.map_values(|e: InstanceEntry<S>| e@),
            next_id: self.next_id,
        }
    }
}

impl<S> RegistryInner<S> {
    /// Only numbers that were given out are in use, and 0 is none of them.
    pub open spec fn wf(&self) -> bool {
        forall|id: u32| #[trigger]
            self@.instances.contains_key(id) ==> 0 < id <= self@.next_id
    }

    /// No instances.
    pub fn new() -> (reg: Self)
        ensures
            reg.wf(),
            reg@ == (RegistryView::<S> { instances: Map::empty(), next_id: 0 }),
    {
        let reg = RegistryInner { instances: HashMap::new(), next_id: 0 };
        assert(reg@.instances =~= Map::empty());
        reg
    }

    /// The number that was given out last.
    pub fn last_id(&self) -> (id: u32)
        ensures
            id == self@.next_id,
    {
        self.next_id
    }
}

/// The name of an instance that was given none.
pub open spec fn default_name(id: u32) -> Seq<char> {
    "Analyzer "@ + decimal_chars(id as nat)
}

/// The registry after an instance was added.
pub open spec fn registered<S>(
    reg: RegistryView<S>,
    name: Option<Seq<char>>,
    spectrum: S,
) -> RegistryView<S> {
    let id = (reg.next_id + 1) as u32;
    RegistryView {
        instances: reg.instances.insert(
            id,
            InstanceView {
                name: match name {
                    Some(name) => name,
                    None => default_name(id),
                },
                spectrum,
            },
        ),
        next_id: id,
    }
}

/// The registry after an instance got a name. A number that is not in use changes nothing.
pub open spec fn renamed<S>(reg: RegistryView<S>, id: u32, name: Seq<char>) -> RegistryView<S> {
    if reg.instances.contains_key(id) {
        RegistryView {
            instances: reg.instances.insert(
                id,
                InstanceView { name, ..reg.instances[id] },
            ),
            ..reg
        }
    } else {
        reg
    }
}

/// The registry after an instance was taken out.
pub open spec fn deregistered<S>(reg: RegistryView<S>, id: u32) -> RegistryView<S> {
    RegistryView { instances: reg.instances.remove(id), ..reg }
}

/// The name of an instance, if the number is in use.
pub open spec fn name_in<S>(reg: RegistryView<S>, id: u32) -> Option<Seq<char>> {
    if reg.instances.contains_key(id) {
        Some(reg.instances[id].name)
    } else {
        None
    }
}

/// The view of a name, if there is one.
pub open spec fn name_view(name: Option<&str>) -> Option<Seq<char>> {
    match name {
        Some(name) => Some(name@),
        None => None,
    }
}

/// Adds an instance under a new number. Without a name it gets one that shows its number.
pub fn register<S>(reg: &mut RegistryInner<S>, name: Option<&str>, spectrum: S) -> (id: InstanceId)
    requires
        old(reg).wf(),
        old(reg)@.next_id < u32::MAX,
    ensures
        final(reg).wf(),
        id.0 == old(reg)@.next_id + 1,
        final(reg)@ == registered(old(reg)@, name_view(name), spectrum),
{
    reg.next_id = reg.next_id + 1;
    let id: u32 = reg.next_id;
    let name: String = match name {
        Some(name) => name.to_owned(),
        None => labelled("Analyzer ", id),
    };
    let entry = InstanceEntry { name, spectrum };
    let ghost given = entry@;
    reg.instances.insert(id, entry);
    assert(reg@.instances =~= old(reg)@.instances.insert(id, given));
    InstanceId(id)
}

/// Takes an instance out.
pub fn deregister<S>(reg: &mut RegistryInner<S>, id: InstanceId)
    requires
        old(reg).wf(),
    ensures
        final(reg).wf(),
        final(reg)@ == deregistered(old(reg)@, id.0),
{
    reg.instances.remove(&id.0);
    assert(reg@.instances =~= old(reg)@.instances.remove(id.0));
}

/// `all` holds every instance with its name, each once.
pub open spec fn lists<S>(reg: RegistryView<S>, all: Seq<(InstanceId, String)>) -> bool {
    &&& forall|i: int|
        0 <= i < all.len() ==> name_in(reg, (#[trigger] all[i]).0.0) == Some(all[i].1@)
    &&& forall|i: int, j: int|
        0 <= i < j < all.len() ==> (#[trigger] all[i]).0 != (#[trigger] all[j]).0
    &&& forall|id: u32| #[trigger]
        reg.instances.contains_key(id) ==> exists|i: int|
            0 <= i < all.len() && (#[trigger] all[i]).0 == InstanceId(id)
}

/// All instances with their names, each once, in no particular order.
pub fn list<S>(reg: &RegistryInner<S>) -> (all: Vec<(InstanceId, String)>)
    ensures
        lists(reg@, all@),
{
    let mut all: Vec<(InstanceId, String)> = Vec::new();
    let entries = reg.instances.iter();
    let ghost pairs = entries.remaining();
    for (id, entry) in iter: entries
        invariant
            iter.seq() == pairs,
            all@.len() == iter.index(),
            forall|i: int|
                0 <= i < iter.index() ==> (#[trigger] all@[i]).0.0 == *iter.seq()[i].0
                    && all@[i].1@ == iter.seq()[i].1@.name,
    {
        all.push((InstanceId(*id), entry.name.clone()));
    }
    proof {
        let m = reg.instances@;
        assert forall|i: int, j: int| 0 <= i < j < all@.len() implies (#[trigger] all@[i]).0 != (
        #[trigger] all@[j]).0 by {
            assert(m[*pairs[i].0] == *pairs[i].1);
            assert(m[*pairs[j].0] == *pairs[j].1);
            assert(pairs[i] != pairs[j]);
        }
        assert forall|id: u32| #[trigger] reg@.instances.contains_key(id) implies exists|i: int|
            0 <= i < all@.len() && (#[trigger] all@[i]).0 == InstanceId(id) by {
            assert(m.contains_key(id));
            let i = choose|i: int| 0 <= i < pairs.len() && pairs[i] == (&id, &m[id]);
            assert(all@[i].0 == InstanceId(id));
        }
    }
    all
}

/// The spectrum of an instance.
pub fn get<S>(reg: &RegistryInner<S>, id: InstanceId) -> (spectrum: Option<&S>)
    ensures
        match spectrum {
            Some(s) => reg@.instances.contains_key(id.0) && *s == reg@.instances[id.0].spectrum,
            None => !reg@.instances.contains_key(id.0),
        },
{
    match reg.instances.get(&id.0) {
        Some(entry) => Some(&entry.spectrum),
        None => None,
    }
}

/// Gives an instance another name.
pub fn rename<S>(reg: &mut RegistryInner<S>, id: InstanceId, new_name: &str)
    requires
        old(reg).wf(),
    ensures
        final(reg).wf(),
        final(reg)@ == renamed(old(reg)@, id.0, new_name@),
{
    match reg.instances.remove(&id.0) {
        Some(entry) => {
            let entry = InstanceEntry { name: new_name.to_owned(), spectrum: entry.spectrum };
            reg.instances.insert(id.0, entry);
        },
        None => {},
    }
    assert(reg@.instances =~= renamed(old(reg)@, id.0, new_name@).instances);
}

/// An instance of this name; which one, if there are several, is left open.
pub fn find_by_name<S>(reg: &RegistryInner<S>, name: &str) -> (found: Option<InstanceId>)
    ensures
        match found {
            Some(id) => name_in(reg@, id.0) == Some(name@),
            None => forall|id: u32| #[trigger] name_in(reg@, id) != Some(name@),
        },
{
    let wanted: String = name.to_owned();
    let entries = reg.instances.iter();
    let ghost pairs = entries.remaining();
    for (id, entry) in iter: entries
        invariant
            iter.seq() == pairs,
            wanted@ == name@,
            forall|i: int| 0 <= i < iter.index() ==> (#[trigger] pairs[i]).1@.name != name@,
            forall|i: int|
                0 <= i < pairs.len() ==> reg.instances@.contains_key(*(#[trigger] pairs[i]).0)
                    && reg.instances@[*pairs[i].0] == *pairs[i].1,
    {
        if entry.name == wanted {
            return Some(InstanceId(*id));
        }
    }
    proof {
        let m = reg.instances@;
        assert forall|id: u32| #[trigger] name_in(reg@, id) != Some(name@) by {
            if m.contains_key(id) {
                let i = choose|i: int| 0 <= i < pairs.len() && pairs[i] == (&id, &m[id]);
                assert(pairs[i].1@.name != name@);
            }
        }
    }
    None
}

/// The name of an instance.
pub fn name_of<S>(reg: &RegistryInner<S>, id: InstanceId) -> (name: Option<String>)
    ensures
        match name {
            Some(name) => name_in(reg@, id.0) == Some(name@),
            None => name_in(reg@, id.0) is None,
        },
{
    match reg.instances.get(&id.0) {
        Some(entry) => Some(entry.name.clone()),
        None => None,
    }
}

/// A new instance gets a number that was never in use, and the others stay as they are.
pub proof fn register_is_fresh<S>(
    reg: RegistryInner<S>,
    name: Option<Seq<char>>,
    spectrum: S,
    other: u32,
)
    requires
        reg.wf(),
        reg@.next_id < u32::MAX,
    ensures
        ({
            let after = registered(reg@, name, spectrum);
            let id = after.next_id;
            &&& id > reg@.next_id
            &&& !reg@.instances.contains_key(id)
            &&& after.instances[id].spectrum == spectrum
            &&& name_in(after, id) == Some(
                match name {
                    Some(name) => name,
                    None => default_name(id),
                },
            )
            &&& other != id ==> name_in(after, other) == name_in(reg@, other)
            &&& other != id && reg@.instances.contains_key(other) ==> after.instances[other]
                == reg@.instances[other]
        }),
{
}

/// An instance that was renamed has the new name and the same spectrum, and no other
/// instance changes.
pub proof fn rename_is_seen<S>(reg: RegistryView<S>, id: u32, name: Seq<char>, other: u32)
    requires
        reg.instances.contains_key(id),
    ensures
        name_in(renamed(reg, id, name), id) == Some(name),
        renamed(reg, id, name).instances[id].spectrum == reg.instances[id].spectrum,
        renamed(reg, id, name).instances.dom() == reg.instances.dom(),
        other != id ==> name_in(renamed(reg, id, name), other) == name_in(reg, other),
{
    assert(renamed(reg, id, name).instances.dom() =~= reg.instances.dom());
}

/// An instance that was taken out has no name any more, and the others stay; a number that
/// was given out is not given out again.
pub proof fn deregister_is_seen<S>(
    reg: RegistryInner<S>,
    id: u32,
    other: u32,
    name: Option<Seq<char>>,
    spectrum: S,
)
    requires
        reg.wf(),
        reg@.next_id < u32::MAX,
        reg@.instances.contains_key(id),
    ensures
        name_in(deregistered(reg@, id), id) is None,
        other != id ==> name_in(deregistered(reg@, id), other) == name_in(reg@, other),
        registered(deregistered(reg@, id), name, spectrum).next_id != id,
{
}

/// Taking out an instance that was just added leaves the instances that were there.
pub proof fn register_then_deregister<S>(
    reg: RegistryInner<S>,
    name: Option<Seq<char>>,
    spectrum: S,
)
    requires
        reg.wf(),
        reg@.next_id < u32::MAX,
    ensures
        ({
            let after = registered(reg@, name, spectrum);
            deregistered(after, after.next_id).instances == reg@.instances
        }),
{
    let after = registered(reg@, name, spectrum);
    assert(deregistered(after, after.next_id).instances =~= reg@.instances);
}

/// Instances that were given no name have different names.
pub proof fn default_names_differ(a: u32, b: u32)
    requires
        a != b,
    ensures
        default_name(a) != default_name(b),
{
    if default_name(a) == default_name(b) {
        labels_are_distinct("Analyzer "@, a as nat, b as nat);
    }
}

/// The name of an instance is the one that it was registered or renamed with, and a number
/// that is not in use has none.
pub proof fn names_belong_to_instances<S>(reg: RegistryView<S>, id: u32)
    ensures
        reg.instances.contains_key(id) ==> name_in(reg, id) == Some(reg.instances[id].name),
        !reg.instances.contains_key(id) ==> name_in(reg, id) is None,
{
}

/// Registering adds exactly one instance, under the number after the last one, with the
/// spectrum and the name that it was given; without a name it is called by its number.
pub proof fn registering_adds_one<S>(
    reg: RegistryView<S>,
    name: Option<Seq<char>>,
    spectrum: S,
    other: u32,
)
    requires
        reg.next_id < u32::MAX,
    ensures
        ({
            let after = registered(reg, name, spectrum);
            let id = (reg.next_id + 1) as u32;
            &&& after.next_id == reg.next_id + 1
            &&& after.instances.contains_key(id)
            &&& after.instances[id].spectrum == spectrum
            &&& name matches Some(given) ==> after.instances[id].name == given
            &&& name is None ==> after.instances[id].name == "Analyzer "@ + decimal_chars(
                id as nat,
            )
            &&& other != id ==> (after.instances.contains_key(other)
                <==> reg.instances.contains_key(other))
            &&& other != id && reg.instances.contains_key(other) ==> after.instances[other]
                == reg.instances[other]
        }),
{
}

/// Deregistering removes exactly one instance, and the count of numbers goes on from where it
/// was. Renaming one that is not there changes nothing.
pub proof fn others_are_left_alone<S>(
    reg: RegistryView<S>,
    id: u32,
    other: u32,
    name: Seq<char>,
)
    ensures
        !deregistered(reg, id).instances.contains_key(id),
        deregistered(reg, id).next_id == reg.next_id,
        other != id ==> (deregistered(reg, id).instances.contains_key(other)
            <==> reg.instances.contains_key(other)),
        other != id && reg.instances.contains_key(other) ==> deregistered(
            reg,
            id,
        ).instances[other] == reg.instances[other],
        renamed(reg, id, name).next_id == reg.next_id,
        !reg.instances.contains_key(id) ==> renamed(reg, id, name) == reg,
        other != id && reg.instances.contains_key(other) ==> renamed(
            reg,
            id,
            name,
        ).instances[other] == reg.instances[other],
        reg.instances.contains_key(id) ==> renamed(reg, id, name).instances[id].name == name
            && renamed(reg, id, name).instances[id].spectrum == reg.instances[id].spectrum,
{
}

/// A name that is given is kept letter by letter.
pub proof fn given_names_are_taken(name: &str)
    ensures
        name_view(Some(name)) == Some(name@),
        name_view(None) is None,
{
}

/// A list of the instances names each one that is registered, and none besides.
pub proof fn lists_are_complete<S>(
    reg: RegistryView<S>,
    all: Seq<(InstanceId, String)>,
    id: u32,
    i: int,
    j: int,
)
    requires
        lists(reg, all),
        0 <= i < all.len(),
        0 <= j < all.len(),
    ensures
        reg.instances.contains_key(all[i].0.0),
        all[i].1@ == reg.instances[all[i].0.0].name,
        i != j ==> all[i].0 != all[j].0,
        reg.instances.contains_key(id) ==> exists|k: int|
            0 <= k < all.len() && (#[trigger] all[k]).0.0 == id,
{
    assert(name_in(reg, all[i].0.0) == Some(all[i].1@));
    if reg.instances.contains_key(id) {
        let k = choose|k: int| 0 <= k < all.len() && (#[trigger] all[k]).0 == InstanceId(id);
        assert(all[k].0.0 == id);
    }
}

} // verus!
