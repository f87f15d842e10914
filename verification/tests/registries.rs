use std::sync::Arc;

use truce_analyzer::file_registry::{FileRegistry, FileRegistryEntry};
use truce_analyzer::registry::{self, InstanceId, RegistryInner};
use truce_analyzer::spectrum::SpectrumData;

fn cqt_center_frequencies() -> Vec<u32> {
    let num_octaves = (20480.0f32 / 27.5).log2();
    let num_bins = (96.0 * num_octaves).ceil() as usize;
    (0..num_bins)
        .map(|k| (27.5 * 2.0_f32.powf(k as f32 / 96.0)).to_bits())
        .collect()
}

#[test]
fn registry_round_trip() {
    let mut reg: RegistryInner<Arc<SpectrumData>> = RegistryInner::new();
    let freqs = cqt_center_frequencies();
    let spectrum = Arc::new(SpectrumData::new(freqs));
    let id = registry::register(&mut reg, Some("Test Instance"), spectrum.clone());

    let list = registry::list(&reg);
    assert!(list.iter().any(|(i, n)| *i == id && n == "Test Instance"));
    assert!(registry::get(&reg, id).is_some());

    registry::rename(&mut reg, id, "Renamed");
    assert_eq!(registry::name_of(&reg, id), Some("Renamed".to_string()));
    assert_eq!(registry::find_by_name(&reg, "Renamed"), Some(id));

    registry::deregister(&mut reg, id);
    assert!(registry::get(&reg, id).is_none());
}

#[test]
fn unnamed_instances_show_their_numbers() {
    let mut reg: RegistryInner<u8> = RegistryInner::new();
    for _ in 0..12 {
        registry::register(&mut reg, None, 7);
    }
    assert_eq!(registry::name_of(&reg, InstanceId(1)), Some("Analyzer 1".to_string()));
    assert_eq!(registry::name_of(&reg, InstanceId(12)), Some("Analyzer 12".to_string()));
    assert_eq!(registry::name_of(&reg, InstanceId(13)), None);
    assert_eq!(reg.last_id(), 12);
}

#[test]
fn numbers_are_not_given_out_again() {
    let mut reg: RegistryInner<u8> = RegistryInner::new();
    let a = registry::register(&mut reg, None, 1);
    registry::deregister(&mut reg, a);
    let b = registry::register(&mut reg, None, 2);
    assert_eq!(a, InstanceId(1));
    assert_eq!(b, InstanceId(2));
    assert_eq!(registry::get(&reg, b), Some(&2));
}

#[test]
fn list_holds_each_instance_once() {
    let mut reg: RegistryInner<u8> = RegistryInner::new();
    for i in 0..40u8 {
        registry::register(&mut reg, None, i);
    }
    let mut ids: Vec<u32> = registry::list(&reg).iter().map(|(id, _)| id.0).collect();
    ids.sort();
    assert_eq!(ids, (1..=40).collect::<Vec<u32>>());
}

#[test]
fn renaming_an_unknown_instance_changes_nothing() {
    let mut reg: RegistryInner<u8> = RegistryInner::new();
    let a = registry::register(&mut reg, Some("A"), 1);
    registry::rename(&mut reg, InstanceId(99), "B");
    assert_eq!(registry::find_by_name(&reg, "B"), None);
    assert_eq!(registry::name_of(&reg, a), Some("A".to_string()));
    assert_eq!(registry::list(&reg).len(), 1);
}

#[test]
fn shared_names_find_one_of_the_instances() {
    let mut reg: RegistryInner<u8> = RegistryInner::new();
    let a = registry::register(&mut reg, Some("Same"), 1);
    let b = registry::register(&mut reg, Some("Same"), 2);
    let found = registry::find_by_name(&reg, "Same");
    assert!(found == Some(a) || found == Some(b));
}

fn entry(id: u32, pid: u32) -> FileRegistryEntry {
    FileRegistryEntry {
        id,
        name: format!("Name {}", id),
        shm_name: format!("/truce-analyzer-{}", id),
        pid,
    }
}

fn ids(file: &FileRegistry) -> Vec<u32> {
    file.instances.iter().map(|e| e.id).collect()
}

#[test]
fn adding_drops_stale_entries() {
    let mut file = FileRegistry { instances: vec![entry(1, 10), entry(2, 20), entry(3, 10)] };
    file.add(4, "New", 30, &vec![true, false, true]);
    assert_eq!(ids(&file), vec![1, 3, 4]);
    let last = &file.instances[2];
    assert_eq!(last.name, "New");
    assert_eq!(last.shm_name, "/truce-analyzer-4");
    assert_eq!(last.pid, 30);
    assert_eq!(file.instances[0].name, "Name 1");
}

#[test]
fn removing_drops_every_entry_of_the_instance() {
    let mut file = FileRegistry { instances: vec![entry(1, 10), entry(2, 20), entry(1, 30)] };
    file.remove(1);
    assert_eq!(ids(&file), vec![2]);
    file.remove(7);
    assert_eq!(ids(&file), vec![2]);
}

#[test]
fn stale_entries_leave_in_one_go() {
    let mut file = FileRegistry { instances: vec![entry(1, 1), entry(2, 2), entry(3, 3)] };
    file.remove_stale_pids(&vec![true, true, true]);
    assert_eq!(ids(&file), vec![1, 2, 3]);
    file.remove_stale_pids(&vec![false, true, false]);
    assert_eq!(ids(&file), vec![2]);
    file.remove_stale_pids(&vec![false]);
    assert!(file.instances.is_empty());
}

#[test]
fn unreadable_file_gives_an_empty_list() {
    assert!(FileRegistry::load(None).instances.is_empty());
    assert!(FileRegistry::default().instances.is_empty());
    let found = FileRegistry { instances: vec![entry(5, 1)] };
    assert_eq!(ids(&FileRegistry::load(Some(found))), vec![5]);
}
