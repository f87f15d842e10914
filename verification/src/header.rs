//! What the header of the display offers.

use vstd::prelude::*;
use vstd::string::StringExecFns;

use crate::file_registry::FileRegistryEntry;
use crate::registry::{list, lists, name_in, name_of, rename, renamed};
use crate::registry::{InstanceId, RegistryInner, RegistryView};
use crate::text::{decimal, decimal_chars};
use crate::ui_state::{flagged, saved, PersistentState, UiState, UiView, ViewMode};

verus! {

/// The label of a view mode.
pub open spec fn view_label_of(mode: ViewMode) -> Seq<char> {
    match mode {
        ViewMode::Both => "Both"@,
        ViewMode::Normal => "Normal"@,
        ViewMode::Diff => "Diff"@,
    }
}

/// The label of a view mode.
pub fn view_label(mode: ViewMode) -> (label: &'static str)
    ensures
        label@ == view_label_of(mode),
{
    match mode {
        ViewMode::Both => "Both",
        ViewMode::Normal => "Normal",
        ViewMode::Diff => "Diff",
    }
}

/// Instances with their names, as texts.
pub open spec fn named(all: Seq<(InstanceId, String)>) -> Seq<(InstanceId, Seq<char>)> {
    Seq::new(all.len(), |i: int| (all[i].0, all[i].1@))
}

/// Is the instance `id` among them?
pub open spec fn has_id(all: Seq<(InstanceId, Seq<char>)>, id: InstanceId) -> bool {
    exists|i: int| 0 <= i < all.len() && (#[trigger] all[i]).0 == id
}

/// The instances, joined by those of other processes whose numbers are not taken.
pub open spec fn merged(
    all: Seq<(InstanceId, Seq<char>)>,
    entries: Seq<FileRegistryEntry>,
    own_pid: u32,
) -> Seq<(InstanceId, Seq<char>)>
    decreases entries.len(),
{
    if entries.len() == 0 {
        all
    } else {
        let before = merged(all, entries.drop_last(), own_pid);
        let entry = entries.last();
        if entry.pid == own_pid || has_id(before, InstanceId(entry.id)) {
            before
        } else {
            before.push((InstanceId(entry.id), entry.name@))
        }
    }
}

/// The instances without the one that shows them.
pub open spec fn without(
    all: Seq<(InstanceId, Seq<char>)>,
    own: InstanceId,
) -> Seq<(InstanceId, Seq<char>)>
    decreases all.len(),
{
    if all.len() == 0 {
        seq![]
    } else {
        let before = without(all.drop_last(), own);
        if all.last().0 == own {
            before
        } else {
            before.push(all.last())
        }
    }
}

/// Is the instance `id` in the list?
fn list_has(all: &Vec<(InstanceId, String)>, id: InstanceId) -> (r: bool)
    ensures
        r == has_id(named(all@), id),
{
    let mut i: usize = 0;
    while i < all.len()
        invariant
            i <= all.len(),
            forall|j: int| 0 <= j < i ==> (#[trigger] named(all@)[j]).0 != id,
        decreases all.len() - i,
    {
        if all[i].0 == id {
            assert(named(all@)[i as int].0 == id);
            return true;
        }
        i = i + 1;
    }
    false
}

/// The instances that can be compared with: those of this process, which are `listed`, and
/// those of other processes in the common file, but not the one that asks.
pub fn source_choices(
    listed: Vec<(InstanceId, String)>,
    entries: &Vec<FileRegistryEntry>,
    own_pid: u32,
    own: InstanceId,
) -> (choices: Vec<(InstanceId, String)>)
    ensures
        named(choices@) == without(merged(named(listed@), entries@, own_pid), own),
{
    let ghost start = named(listed@);
    let mut all: Vec<(InstanceId, String)> = listed;
    let mut e: usize = 0;
    while e < entries.len()
        invariant
            e <= entries.len(),
            named(all@) == merged(start, entries@.take(e as int), own_pid),
        decreases entries.len() - e,
    {
        assert(entries@.take(e + 1).drop_last() =~= entries@.take(e as int));
        let id = InstanceId(entries[e].id);
        if entries[e].pid != own_pid && !list_has(&all, id) {
            let ghost before = named(all@);
            let name: String = entries[e].name.clone();
            all.push((id, name));
            assert(named(all@) =~= before.push((id, name@)));
        }
        e = e + 1;
    }
    assert(entries@.take(e as int) =~= entries@);

    let ghost whole = named(all@);
    let ghost mut passed: int = 0;
    let mut i: usize = 0;
    assert(whole.take(0) =~= seq![]);
    while i < all.len()
        invariant
            0 <= passed <= whole.len(),
            i == without(whole.take(passed), own).len(),
            named(all@) == without(whole.take(passed), own) + whole.skip(passed),
        decreases all.len() - i,
    {
        let ghost before = named(all@);
        proof {
            assert(before.len() == i + (whole.len() - passed));
            assert(before[i as int] == whole[passed]);
            assert(before[i as int].0 == all@[i as int].0);
            assert(whole.take(passed + 1).drop_last() =~= whole.take(passed));
        }
        if all[i].0 == own {
            all.remove(i);
            assert(named(all@) =~= before.remove(i as int));
        } else {
            i = i + 1;
        }
        proof {
            passed = passed + 1;
            assert(named(all@) =~= without(whole.take(passed), own) + whole.skip(passed));
        }
    }
    assert(whole.skip(passed).len() == 0);
    assert(whole.take(passed) =~= whole);
    assert(named(all@) =~= without(whole, own));
    all
}

/// What the header calls the instances that are compared with.
pub open spec fn source_label_of<S>(
    selected: Seq<InstanceId>,
    reg: RegistryView<S>,
) -> Seq<char> {
    if selected.len() == 0 {
        "Self"@
    } else if selected.len() == 1 {
        match name_in(reg, selected[0].0) {
            Some(name) => name,
            None => "?"@,
        }
    } else {
        decimal_chars(selected.len()) + " sources"@
    }
}

/// What the header calls the instances that are compared with.
pub fn source_label<S>(selected: &Vec<InstanceId>, reg: &RegistryInner<S>) -> (label: String)
    ensures
        label@ == source_label_of(selected@, reg@),
{
    if selected.len() == 0 {
        "Self".to_owned()
    } else if selected.len() == 1 {
        match name_of(reg, selected[0]) {
            Some(name) => name,
            None => "?".to_owned(),
        }
    } else {
        let mut label: String = decimal(selected.len() as u64);
        label.append(" sources");
        label
    }
}

/// An instance that can be switched on or off in the header.
pub struct Choice {
    pub id: InstanceId,
    pub name: String,
    pub checked: bool,
}

/// What the header shows.
pub struct Header {
    /// Is the channel mode offered?
    pub channel: bool,
    /// Is the view mode offered? Then this is its label.
    pub view: Option<&'static str>,
    pub source_label: String,
    pub choices: Vec<Choice>,
}

/// The choices that the header offers, each checked if it is selected.
pub open spec fn offers(
    choices: Seq<Choice>,
    others: Seq<(InstanceId, Seq<char>)>,
    selected: Seq<InstanceId>,
) -> bool {
    &&& choices.len() == others.len()
    &&& forall|i: int|
        0 <= i < choices.len() ==> {
            &&& (#[trigger] choices[i]).id == others[i].0
            &&& choices[i].name@ == others[i].1
            &&& choices[i].checked == selected.contains(others[i].0)
        }
}

/// Does the header show what it should, where the instances of this process are `listed`?
pub open spec fn header_shows<S>(
    header: Header,
    ui: UiView,
    reg: RegistryView<S>,
    listed: Seq<(InstanceId, String)>,
    entries: Seq<FileRegistryEntry>,
    own_pid: u32,
) -> bool {
    &&& header.channel == (ui.selected_ids.len() == 0)
    &&& header.view is Some <==> ui.selected_ids.len() > 0
    &&& header.view matches Some(label) ==> label@ == view_label_of(ui.view_mode)
    &&& header.source_label@ == source_label_of(ui.selected_ids, reg)
    &&& offers(
        header.choices@,
        without(merged(named(listed), entries, own_pid), ui.instance_id),
        ui.selected_ids,
    )
}

fn id_selected(selected: &Vec<InstanceId>, id: InstanceId) -> (r: bool)
    ensures
        r == selected@.contains(id),
{
    let mut i: usize = 0;
    while i < selected.len()
        invariant
            i <= selected.len(),
            forall|j: int| 0 <= j < i ==> selected@[j] != id,
        decreases selected.len() - i,
    {
        if selected[i] == id {
            assert(selected@[i as int] == id);
            return true;
        }
        i = i + 1;
    }
    false
}

/// What the header shows, where the instances of this process are `listed`. The channel mode
/// is offered while nothing is compared, the view mode while something is.
pub fn header_for<S>(
    ui: &UiState,
    reg: &RegistryInner<S>,
    listed: Vec<(InstanceId, String)>,
    entries: &Vec<FileRegistryEntry>,
    own_pid: u32,
) -> (header: Header)
    ensures
        header_shows(header, ui@, reg@, listed@, entries@, own_pid),
{
    let comparing = ui.selected_ids.len() > 0;
    let view: Option<&'static str> = if comparing {
        Some(view_label(ui.view_mode))
    } else {
        None
    };
    let others = source_choices(listed, entries, own_pid, ui.instance_id);
    let ghost wanted = named(others@);
    let mut choices: Vec<Choice> = Vec::new();
    let mut i: usize = 0;
    while i < others.len()
        invariant
            i <= others.len(),
            wanted == named(others@),
            offers(choices@, wanted.take(i as int), ui.selected_ids@),
        decreases others.len() - i,
    {
        let id = others[i].0;
        choices.push(
            Choice {
                id,
                name: others[i].1.clone(),
                checked: id_selected(&ui.selected_ids, id),
            },
        );
        i = i + 1;
    }
    assert(wanted.take(i as int) =~= wanted);
    Header {
        channel: !comparing,
        view,
        source_label: source_label(&ui.selected_ids, reg),
        choices,
    }
}

/// What the header shows, with the instances of this process in the order in which the
/// registry lists them.
pub fn header<S>(
    ui: &UiState,
    reg: &RegistryInner<S>,
    entries: &Vec<FileRegistryEntry>,
    own_pid: u32,
) -> (header: Header)
    ensures
        exists|listed: Seq<(InstanceId, String)>|
            lists(reg@, listed) && #[trigger] header_shows(
                header,
                ui@,
                reg@,
                listed,
                entries@,
                own_pid,
            ),
{
    let listed = list(reg);
    let ghost order = listed@;
    let header = header_for(ui, reg, listed, entries, own_pid);
    assert(header_shows(header, ui@, reg@, order, entries@, own_pid));
    header
}

/// Begins to edit the name of the instance.
pub fn begin_rename(ui: &mut UiState)
    ensures
        final(ui)@ == (UiView { editing_name: true, ..old(ui)@ }),
{
    ui.editing_name = true;
}

/// Ends the editing of the name: the instance gets it, and what is to be saved is returned.
/// Without editing nothing happens.
pub fn commit_rename<S>(ui: &mut UiState, reg: &mut RegistryInner<S>) -> (state: Option<
    PersistentState,
>)
    requires
        old(reg).wf(),
    ensures
        final(reg).wf(),
        !old(ui)@.editing_name ==> state is None && final(ui)@ == old(ui)@ && final(reg)@ == old(
            reg,
        )@,
        old(ui)@.editing_name ==> {
            &&& final(ui)@ == flagged(UiView { editing_name: false, ..old(ui)@ })
            &&& final(reg)@ == renamed(
                old(reg)@,
                old(ui)@.instance_id.0,
                old(ui)@.instance_name,
            )
            &&& state matches Some(ps) && ps@ == saved(final(ui)@, final(reg)@)
        },
{
    if !ui.editing_name {
        return None;
    }
    ui.editing_name = false;
    rename(reg, ui.instance_id, ui.instance_name.as_str());
    Some(ui.sync_to_plugin(reg))
}

/// No two of these instances have the same number.
pub open spec fn ids_distinct(all: Seq<(InstanceId, Seq<char>)>) -> bool {
    forall|i: int, j: int| 0 <= i < j < all.len() ==> (#[trigger] all[i]).0 != (#[trigger] all[j]).0
}

proof fn merged_keeps_distinct(
    all: Seq<(InstanceId, Seq<char>)>,
    entries: Seq<FileRegistryEntry>,
    own_pid: u32,
)
    requires
        ids_distinct(all),
    ensures
        ids_distinct(merged(all, entries, own_pid)),
        forall|i: int|
            0 <= i < all.len() ==> i < merged(all, entries, own_pid).len() && #[trigger] merged(
                all,
                entries,
                own_pid,
            )[i] == all[i],
        forall|e: int|
            0 <= e < entries.len() && (#[trigger] entries[e]).pid != own_pid ==> has_id(
                merged(all, entries, own_pid),
                InstanceId(entries[e].id),
            ),
        merged(all, entries, own_pid).len() >= all.len(),
    decreases entries.len(),
{
    if entries.len() > 0 {
        let rest = entries.drop_last();
        merged_keeps_distinct(all, rest, own_pid);
        let before = merged(all, rest, own_pid);
        let after = merged(all, entries, own_pid);
        assert forall|i: int| 0 <= i < before.len() implies #[trigger] after[i] == before[i] by {}
        assert forall|e: int|
            0 <= e < entries.len() && (#[trigger] entries[e]).pid != own_pid implies has_id(
            after,
            InstanceId(entries[e].id),
        ) by {
            if e < rest.len() {
                assert(rest[e] == entries[e]);
                let i = choose|i: int|
                    0 <= i < before.len() && (#[trigger] before[i]).0 == InstanceId(rest[e].id);
                assert(after[i].0 == InstanceId(entries[e].id));
            } else if has_id(before, InstanceId(entries[e].id)) {
                let i = choose|i: int|
                    0 <= i < before.len() && (#[trigger] before[i]).0 == InstanceId(entries[e].id);
                assert(after[i].0 == InstanceId(entries[e].id));
            } else {
                assert(after[before.len() as int].0 == InstanceId(entries[e].id));
            }
        }
    }
}

proof fn without_is_right(all: Seq<(InstanceId, Seq<char>)>, own: InstanceId)
    ensures
        !has_id(without(all, own), own),
        forall|id: InstanceId| #[trigger]
            has_id(without(all, own), id) <==> id != own && has_id(all, id),
        ids_distinct(all) ==> ids_distinct(without(all, own)),
    decreases all.len(),
{
    if all.len() > 0 {
        let rest = all.drop_last();
        let last = all.last();
        let before = without(rest, own);
        let after = without(all, own);
        without_is_right(rest, own);
        assert forall|id: InstanceId| #[trigger] has_id(after, id) <==> id != own && has_id(
            all,
            id,
        ) by {
            if has_id(after, id) {
                let i = choose|i: int| 0 <= i < after.len() && (#[trigger] after[i]).0 == id;
                if i < before.len() {
                    assert(before[i].0 == id);
                    assert(has_id(before, id));
                    let k = choose|k: int| 0 <= k < rest.len() && (#[trigger] rest[k]).0 == id;
                    assert(all[k].0 == id);
                } else {
                    assert(all[all.len() - 1].0 == id);
                }
            }
            if id != own && has_id(all, id) {
                let i = choose|i: int| 0 <= i < all.len() && (#[trigger] all[i]).0 == id;
                if i < rest.len() {
                    assert(rest[i].0 == id);
                    assert(has_id(before, id));
                    let k = choose|k: int| 0 <= k < before.len() && (#[trigger] before[k]).0 == id;
                    assert(after[k].0 == id);
                } else {
                    assert(after[before.len() as int].0 == id);
                }
            }
        }
        if ids_distinct(all) {
            assert forall|i: int, j: int| 0 <= i < j < rest.len() implies (#[trigger] rest[i]).0
                != (#[trigger] rest[j]).0 by {
                assert(all[i].0 != all[j].0);
            }
            assert forall|i: int, j: int| 0 <= i < j < after.len() implies (#[trigger] after[i]).0
                != (#[trigger] after[j]).0 by {
                assert(after[i] == before[i]);
                if j < before.len() {
                    assert(after[j] == before[j]);
                } else {
                    assert(has_id(before, before[i].0));
                    let k = choose|k: int|
                        0 <= k < rest.len() && (#[trigger] rest[k]).0 == before[i].0;
                    assert(all[k].0 != all[all.len() - 1].0);
                }
            }
        }
    }
}

/// The header offers every other instance of this process and of others, each once, and
/// never the instance itself.
pub proof fn choices_are_the_others<S>(
    reg: RegistryView<S>,
    listed: Seq<(InstanceId, String)>,
    entries: Seq<FileRegistryEntry>,
    own_pid: u32,
    own: InstanceId,
)
    requires
        lists(reg, listed),
    ensures
        ({
            let choices = without(merged(named(listed), entries, own_pid), own);
            &&& !has_id(choices, own)
            &&& ids_distinct(choices)
            &&& forall|id: u32| #[trigger]
                reg.instances.contains_key(id) && InstanceId(id) != own ==> has_id(
                    choices,
                    InstanceId(id),
                )
            &&& forall|e: int|
                0 <= e < entries.len() && (#[trigger] entries[e]).pid != own_pid && InstanceId(
                    entries[e].id,
                ) != own ==> has_id(choices, InstanceId(entries[e].id))
        }),
{
    let all = named(listed);
    let whole = merged(all, entries, own_pid);
    assert forall|i: int, j: int| 0 <= i < j < all.len() implies (#[trigger] all[i]).0 != (
    #[trigger] all[j]).0 by {
        assert(listed[i].0 != listed[j].0);
    }
    merged_keeps_distinct(all, entries, own_pid);
    without_is_right(whole, own);
    assert forall|id: u32| #[trigger]
        reg.instances.contains_key(id) && InstanceId(id) != own implies has_id(
        without(whole, own),
        InstanceId(id),
    ) by {
        let i = choose|i: int|
            0 <= i < listed.len() && (#[trigger] listed[i]).0 == InstanceId(id);
        assert(whole[i] == all[i]);
        assert(whole[i].0 == InstanceId(id));
        assert(has_id(whole, InstanceId(id)));
    }
}

/// The header offers the channel mode or the view mode, never both and never neither.
pub proof fn one_control_is_offered<S>(
    header: Header,
    ui: UiView,
    reg: RegistryView<S>,
    listed: Seq<(InstanceId, String)>,
    entries: Seq<FileRegistryEntry>,
    own_pid: u32,
)
    requires
        header_shows(header, ui, reg, listed, entries, own_pid),
    ensures
        header.channel <==> header.view is None,
{
}

/// Entries of the common list are looked at one after the other: one of this process, or with
/// a number that is already there, adds nothing; any other adds its instance, with its name,
/// at the end.
pub proof fn foreign_instances_are_added(
    all: Seq<(InstanceId, Seq<char>)>,
    entries: Seq<FileRegistryEntry>,
    own_pid: u32,
    entry: FileRegistryEntry,
)
    ensures
        merged(all, Seq::empty(), own_pid) == all,
        ({
            let before = merged(all, entries, own_pid);
            let after = merged(all, entries.push(entry), own_pid);
            let known = exists|i: int|
                0 <= i < before.len() && (#[trigger] before[i]).0.0 == entry.id;
            if entry.pid == own_pid || known {
                after == before
            } else {
                after == before.push((InstanceId(entry.id), entry.name@))
            }
        }),
{
    let before = merged(all, entries, own_pid);
    assert(entries.push(entry).drop_last() =~= entries);
    if exists|i: int| 0 <= i < before.len() && (#[trigger] before[i]).0.0 == entry.id {
        let i = choose|i: int| 0 <= i < before.len() && (#[trigger] before[i]).0.0 == entry.id;
        assert(before[i].0 == InstanceId(entry.id));
        assert(has_id(before, InstanceId(entry.id)));
    }
}

/// The instance that asks is left out, and every other one stays, in its order and with its
/// name.
pub proof fn only_the_own_instance_is_left_out(
    all: Seq<(InstanceId, Seq<char>)>,
    own: InstanceId,
    id: InstanceId,
    name: Seq<char>,
)
    ensures
        without(Seq::empty(), own) == Seq::<(InstanceId, Seq<char>)>::empty(),
        id == own ==> without(all.push((id, name)), own) == without(all, own),
        id != own ==> without(all.push((id, name)), own) == without(all, own).push((id, name)),
{
    assert(all.push((id, name)).drop_last() =~= all);
}

/// Listed instances come with their numbers and names, each in its place.
pub proof fn listed_names_are_shown(all: Seq<(InstanceId, String)>, i: int)
    requires
        0 <= i < all.len(),
    ensures
        named(all).len() == all.len(),
        named(all)[i] == (all[i].0, all[i].1@),
{
}

/// The label says whether the instance is alone, which single one it is compared with, or with
/// how many.
pub proof fn label_tells_the_sources<S>(selected: Seq<InstanceId>, reg: RegistryView<S>)
    ensures
        selected.len() == 0 ==> source_label_of(selected, reg) == "Self"@,
        selected.len() == 1 && reg.instances.contains_key(selected[0].0) ==> source_label_of(
            selected,
            reg,
        ) == reg.instances[selected[0].0].name,
        selected.len() == 1 && !reg.instances.contains_key(selected[0].0) ==> source_label_of(
            selected,
            reg,
        ) == "?"@,
        selected.len() > 1 ==> source_label_of(selected, reg) == decimal_chars(selected.len())
            + " sources"@,
{
}

/// The channel mode is offered exactly while nothing is selected, the view mode, by its label,
/// exactly while something is; and there is a choice for each of the other instances, with its
/// name, checked exactly if it is selected.
pub proof fn header_goes_with_the_selection<S>(
    header: Header,
    ui: UiView,
    reg: RegistryView<S>,
    listed: Seq<(InstanceId, String)>,
    entries: Seq<FileRegistryEntry>,
    own_pid: u32,
    i: int,
)
    requires
        header_shows(header, ui, reg, listed, entries, own_pid),
    ensures
        header.channel <==> ui.selected_ids.len() == 0,
        header.view is Some <==> ui.selected_ids.len() > 0,
        header.view is Some && ui.view_mode == ViewMode::Both ==> header.view->0@ == "Both"@,
        header.view is Some && ui.view_mode == ViewMode::Normal ==> header.view->0@ == "Normal"@,
        header.view is Some && ui.view_mode == ViewMode::Diff ==> header.view->0@ == "Diff"@,
        header.source_label@ == source_label_of(ui.selected_ids, reg),
        ({
            let others = without(merged(named(listed), entries, own_pid), ui.instance_id);
            &&& header.choices@.len() == others.len()
            &&& 0 <= i < others.len() ==> {
                &&& header.choices@[i].id == others[i].0
                &&& header.choices@[i].name@ == others[i].1
                &&& header.choices@[i].checked <==> ui.selected_ids.contains(others[i].0)
            }
        }),
{
    let others = without(merged(named(listed), entries, own_pid), ui.instance_id);
    if 0 <= i < others.len() {
        assert(header.choices@[i].id == others[i].0);
    }
}

} // verus!
