use truce_analyzer::file_registry::FileRegistryEntry;
use truce_analyzer::header::{begin_rename, commit_rename, header, header_for, source_choices};
use truce_analyzer::header::{source_label, view_label};
use truce_analyzer::plot::{curve, db_label, format_freq, is_boost, layers, shown_difference};
use truce_analyzer::plot::{strip_triangles, Layer, DB_GRID, FREQ_GRID};
use truce_analyzer::readout::{display_name, in_kilohertz, legend, placement, readout};
use truce_analyzer::readout::{ReadoutLine, Swatch};
use truce_analyzer::registry::{self, InstanceId, RegistryInner};
use truce_analyzer::spectrum::{SpectrumData, MODE_BOTH};
use truce_analyzer::ui_state::{PersistentState, RemoteCache, UiState, ViewMode};

fn bits(x: f32) -> u32 {
    x.to_bits()
}

fn entry(id: u32, name: &str, pid: u32) -> FileRegistryEntry {
    FileRegistryEntry { id, name: name.to_string(), shm_name: String::new(), pid }
}

fn remote(id: u32, bins: Vec<u32>, diff_bins: Vec<u32>) -> RemoteCache {
    RemoteCache {
        id: InstanceId(id),
        bins,
        last_version: 0,
        diff_bins,
        diff_local_version: 0,
        diff_remote_version: 0,
    }
}

fn setup() -> (RegistryInner<u8>, UiState) {
    let mut reg = RegistryInner::new();
    let id = registry::register(&mut reg, Some("Own"), 0);
    registry::register(&mut reg, Some("Before EQ"), 1);
    let ui = UiState::new(SpectrumData::new(vec![bits(100.0), bits(200.0)]), id, &reg);
    (reg, ui)
}

#[test]
fn choices_come_from_both_registries() {
    let listed = vec![
        (InstanceId(1), "Own".to_string()),
        (InstanceId(2), "Two".to_string()),
    ];
    let entries = vec![
        entry(2, "Elsewhere two", 50),
        entry(3, "Three", 50),
        entry(4, "Same process", 99),
        entry(3, "Three again", 51),
        entry(1, "Own elsewhere", 50),
    ];
    let choices = source_choices(listed, &entries, 99, InstanceId(1));
    assert_eq!(
        choices,
        vec![
            (InstanceId(2), "Two".to_string()),
            (InstanceId(3), "Three".to_string()),
        ]
    );
}

#[test]
fn source_label_counts_the_sources() {
    let (reg, _) = setup();
    assert_eq!(source_label(&vec![], &reg), "Self");
    assert_eq!(source_label(&vec![InstanceId(2)], &reg), "Before EQ");
    assert_eq!(source_label(&vec![InstanceId(77)], &reg), "?");
    assert_eq!(source_label(&vec![InstanceId(2); 12], &reg), "12 sources");
}

#[test]
fn header_offers_channel_or_view() {
    let (reg, mut ui) = setup();
    let h = header(&ui, &reg, &vec![entry(9, "Far", 5)], 1);
    assert!(h.channel);
    assert!(h.view.is_none());
    assert_eq!(h.source_label, "Self");
    let mut names: Vec<&str> = h.choices.iter().map(|c| c.name.as_str()).collect();
    names.sort();
    assert_eq!(names, vec!["Before EQ", "Far"]);
    assert!(h.choices.iter().all(|c| !c.checked));

    ui.selected_ids.push(InstanceId(2));
    ui.view_mode = ViewMode::Diff;
    let listed = registry::list(&reg);
    let h = header_for(&ui, &reg, listed, &vec![], 1);
    assert!(!h.channel);
    assert_eq!(h.view, Some("Diff"));
    assert_eq!(h.choices.len(), 1);
    assert_eq!(h.choices[0].id, InstanceId(2));
    assert!(h.choices[0].checked);
}

#[test]
fn view_modes_have_labels() {
    assert_eq!(view_label(ViewMode::Both), "Both");
    assert_eq!(view_label(ViewMode::Normal), "Normal");
    assert_eq!(view_label(ViewMode::Diff), "Diff");
}

#[test]
fn renaming_in_the_header() {
    let (mut reg, mut ui) = setup();
    assert!(commit_rename(&mut ui, &mut reg).is_none());
    begin_rename(&mut ui);
    assert!(ui.editing_name);
    ui.instance_name = "After EQ".to_string();
    let state = commit_rename(&mut ui, &mut reg).unwrap();
    assert!(!ui.editing_name);
    assert_eq!(state.instance_name, "After EQ");
    assert_eq!(registry::name_of(&reg, InstanceId(1)), Some("After EQ".to_string()));
}

#[test]
fn layers_of_each_view() {
    let (_, mut ui) = setup();
    ui.view_mode = ViewMode::Normal;
    assert!(layers(&ui) == vec![Layer::Primary]);
    ui.spectrum.set_mode(MODE_BOTH);
    assert!(layers(&ui) == vec![Layer::Secondary, Layer::Primary]);
    ui.view_mode = ViewMode::Diff;
    assert!(layers(&ui) == vec![Layer::Secondary, Layer::Primary]);
    ui.view_mode = ViewMode::Both;
    assert!(layers(&ui) == vec![Layer::Secondary, Layer::Primary]);
    ui.view_mode = ViewMode::Diff;
    for id in 0..5 {
        ui.remotes.push(remote(id, vec![], vec![]));
    }
    assert!(layers(&ui) == (0..5).map(Layer::Difference).collect::<Vec<_>>());
    ui.view_mode = ViewMode::Normal;
    assert!(
        layers(&ui)
            == vec![
                Layer::Remote(0, 0),
                Layer::Remote(1, 1),
                Layer::Remote(2, 2),
                Layer::Remote(3, 3),
                Layer::Remote(4, 0),
                Layer::Secondary,
                Layer::Primary,
            ]
    );
    ui.view_mode = ViewMode::Both;
    let all = layers(&ui);
    assert_eq!(all.len(), 12);
    assert!(all[5] == Layer::Secondary && all[6] == Layer::Primary);
    assert!(all[7] == Layer::Difference(0) && all[11] == Layer::Difference(4));
}

#[test]
fn curve_takes_one_point_per_column() {
    let freqs: Vec<u32> =
        [10.0, 20.0, 20.4, 21.0, 30.0, 30.1, 20000.0, 20001.0].iter().map(|f| bits(*f)).collect();
    let column = |f: u32| f32::from_bits(f) as i32;
    let c = curve(&freqs, 100, column).unwrap();
    assert_eq!(c.bins, vec![1, 3, 4, 6]);
    assert_eq!(c.triangles.len(), 6);
    let c = curve(&freqs, 4, column).unwrap();
    assert_eq!(c.bins, vec![1, 3]);
    assert!(curve(&freqs, 3, column).is_none());
    assert!(curve(&[], 3, column).is_none());
    // Nothing is drawn in the column before the first.
    assert!(curve(&freqs, 100, |_: u32| -1).is_none());
}

#[test]
fn triangles_join_neighbors() {
    assert_eq!(strip_triangles(0), vec![]);
    assert_eq!(strip_triangles(1), vec![]);
    assert_eq!(strip_triangles(3), vec![(0, 1, 2), (1, 3, 2), (2, 3, 4), (3, 5, 4)]);
}

#[test]
fn differences_are_held_to_the_range() {
    assert_eq!(shown_difference(bits(60.0)), bits(45.0));
    assert_eq!(shown_difference(bits(-60.0)), bits(-45.0));
    assert_eq!(shown_difference(bits(-3.5)), bits(-3.5));
    assert!(is_boost(bits(10.0), bits(10.0)));
    assert!(is_boost(bits(9.0), bits(10.0)));
    assert!(!is_boost(bits(11.0), bits(10.0)));
}

fn legend_entries(ui: &UiState, reg: &RegistryInner<u8>) -> Vec<(String, Swatch)> {
    legend(ui, reg).into_iter().map(|e| (e.label, e.swatch)).collect()
}

#[test]
fn legend_of_each_view() {
    let (reg, mut ui) = setup();
    ui.view_mode = ViewMode::Diff;
    assert!(legend_entries(&ui, &reg).is_empty());
    ui.view_mode = ViewMode::Normal;
    assert!(legend_entries(&ui, &reg) == vec![("Own".to_string(), Swatch::Primary)]);
    ui.spectrum.set_mode(MODE_BOTH);
    assert!(
        legend_entries(&ui, &reg)
            == vec![("L".to_string(), Swatch::Primary), ("R".to_string(), Swatch::Secondary)]
    );
    ui.view_mode = ViewMode::Both;
    assert!(legend_entries(&ui, &reg) == vec![("Own".to_string(), Swatch::Primary)]);
    ui.view_mode = ViewMode::Diff;
    assert!(legend_entries(&ui, &reg).is_empty());
    ui.remotes.push(remote(2, vec![], vec![]));
    ui.remotes.push(remote(40, vec![], vec![]));
    ui.view_mode = ViewMode::Both;
    assert!(
        legend_entries(&ui, &reg)
            == vec![
                ("Own".to_string(), Swatch::Primary),
                ("Boost".to_string(), Swatch::Boost),
                ("Cut".to_string(), Swatch::Cut),
                ("Before EQ".to_string(), Swatch::Remote(0)),
                ("#40".to_string(), Swatch::Remote(1)),
            ]
    );
    ui.view_mode = ViewMode::Diff;
    assert!(
        legend_entries(&ui, &reg)
            == vec![("Boost".to_string(), Swatch::Boost), ("Cut".to_string(), Swatch::Cut)]
    );
}

#[test]
fn names_or_numbers_are_shown() {
    let (reg, _) = setup();
    assert_eq!(display_name(&reg, InstanceId(2)), "Before EQ");
    assert_eq!(display_name(&reg, InstanceId(1234)), "#1234");
}

#[test]
fn readout_has_a_line_for_each_instance() {
    let (reg, mut ui) = setup();
    ui.bins_a = vec![1, 2];
    ui.bins_b = vec![3, 4];
    ui.remotes.push(remote(2, vec![5, 6], vec![7, 8]));
    ui.remotes.push(remote(40, vec![9], vec![]));
    ui.view_mode = ViewMode::Both;
    let lines = readout(&ui, &reg, 1);
    assert_eq!(lines.len(), 3);
    assert!(matches!(&lines[0], ReadoutLine::Named { name, db: 2 } if name == "Own"));
    assert!(
        matches!(&lines[1], ReadoutLine::Compared { name, db: 6, diff: 8 } if name == "Before EQ")
    );
    match &lines[2] {
        ReadoutLine::Compared { name, db, diff } => {
            assert_eq!(name, "#40");
            assert_eq!(*db, bits(-90.0));
            assert_eq!(*diff, 0);
        }
        _ => panic!("compared"),
    }
    ui.view_mode = ViewMode::Normal;
    ui.spectrum.set_mode(MODE_BOTH);
    let lines = readout(&ui, &reg, 0);
    assert!(matches!(&lines[0], ReadoutLine::Channels { left: 1, right: 3 }));
    assert!(matches!(&lines[1], ReadoutLine::Named { db: 5, .. }));
    ui.view_mode = ViewMode::Both;
    let lines = readout(&ui, &reg, 0);
    assert!(matches!(&lines[0], ReadoutLine::Channels { left: 1, right: 3 }));
    ui.view_mode = ViewMode::Diff;
    let lines = readout(&ui, &reg, 0);
    assert!(matches!(&lines[0], ReadoutLine::Named { db: 1, .. }));
    ui.remotes.clear();
    let lines = readout(&ui, &reg, 0);
    assert!(matches!(&lines[0], ReadoutLine::Channels { left: 1, right: 3 }));
}

#[test]
fn readout_turns_at_the_edges() {
    let p = placement(bits(700.0), bits(790.0), bits(50.0), bits(40.0));
    assert!(p.right && !p.below);
    let p = placement(bits(790.0), bits(790.0), bits(39.0), bits(40.0));
    assert!(!p.right && p.below);
    assert!(in_kilohertz(bits(1000.0)));
    assert!(!in_kilohertz(bits(999.9)));
}

#[test]
fn axes_are_labelled() {
    let freqs: Vec<String> = FREQ_GRID.into_iter().map(format_freq).collect();
    assert_eq!(freqs, ["50", "100", "200", "500", "1k", "2k", "5k", "10k", "20k"]);
    let levels: Vec<String> = DB_GRID.into_iter().map(db_label).collect();
    assert_eq!(levels, ["0", "-12", "-24", "-36", "-48", "-60", "-72", "-84"]);
    assert_eq!(format_freq(999), "999");
    assert_eq!(format_freq(1999), "1k");
    assert_eq!(db_label(i32::MIN), "-2147483648");
}

#[test]
fn default_view_shows_both_channels() {
    let (_, mut ui) = setup();
    assert!(ui.view_mode == ViewMode::Both && ui.selected_ids.is_empty());
    assert!(layers(&ui) == vec![Layer::Primary]);
    ui.spectrum.set_mode(MODE_BOTH);
    assert!(layers(&ui) == vec![Layer::Secondary, Layer::Primary]);
}

// State

#[test]
fn view_modes_have_numbers() {
    for (v, mode) in [(0, ViewMode::Both), (1, ViewMode::Normal), (2, ViewMode::Diff)] {
        assert!(ViewMode::from_u8(v) == mode);
        assert_eq!(mode.as_u8(), v);
    }
    assert!(ViewMode::from_u8(3) == ViewMode::Both);
    assert!(ViewMode::from_u8(255) == ViewMode::Both);
}

#[test]
fn new_display_takes_the_registered_name() {
    let (reg, ui) = setup();
    assert_eq!(ui.instance_name, "Own");
    assert_eq!(ui.bins_a, vec![bits(-90.0); 2]);
    assert!(ui.selected_ids.is_empty());
    let stranger = UiState::new(SpectrumData::new(vec![]), InstanceId(50), &reg);
    assert_eq!(stranger.instance_name, "");
}

#[test]
fn spectrum_is_read_when_its_version_changes() {
    let (_, mut ui) = setup();
    ui.spectrum.write_bin(0, 11);
    ui.spectrum.write_bin_b(0, 22);
    ui.update_local();
    assert_eq!(ui.bins_a[0], bits(-90.0));
    ui.spectrum.bump_version();
    ui.update_local();
    assert_eq!(ui.bins_a[0], 11);
    assert_eq!(ui.bins_b[0], bits(-90.0));
    ui.spectrum.set_mode(MODE_BOTH);
    ui.spectrum.bump_version();
    ui.update_local();
    assert_eq!(ui.bins_b[0], 22);
    assert_eq!(ui.last_version, 2);
}

fn source(version: u32, level: u32) -> SpectrumData {
    let mut s = SpectrumData::new(vec![bits(100.0), bits(200.0)]);
    s.write_bin(1, level);
    for _ in 0..version {
        s.bump_version();
    }
    s
}

#[test]
fn remotes_follow_selection_and_versions() {
    let (_, mut ui) = setup();
    ui.selected_ids = vec![InstanceId(2), InstanceId(3)];
    ui.update_remotes(&vec![(InstanceId(2), source(1, 5))]);
    assert_eq!(ui.remotes.len(), 1);
    assert_eq!(ui.remotes[0].bins, vec![bits(-90.0), 5]);
    assert_eq!(ui.remotes[0].last_version, 1);
    assert_eq!(ui.remotes[0].diff_bins, vec![0, 0]);
    // The same version is not read again.
    ui.update_remotes(&vec![(InstanceId(2), source(1, 6)), (InstanceId(3), source(0, 7))]);
    assert_eq!(ui.remotes.len(), 2);
    assert_eq!(ui.remotes[0].bins[1], 5);
    assert_eq!(ui.remotes[1].bins[1], bits(-90.0));
    // A source that cannot be reached keeps what was read.
    ui.update_remotes(&vec![(InstanceId(3), source(2, 8))]);
    assert_eq!(ui.remotes[0].bins[1], 5);
    assert_eq!(ui.remotes[1].bins[1], 8);
    ui.selected_ids = vec![InstanceId(3)];
    ui.update_remotes(&vec![(InstanceId(3), source(2, 8))]);
    assert_eq!(ui.remotes.len(), 1);
    assert_eq!(ui.remotes[0].id, InstanceId(3));
}

fn minus(x: u32, y: u32) -> u32 {
    (f32::from_bits(x) - f32::from_bits(y)).to_bits()
}

#[test]
fn differences_wait_for_both_sides() {
    let (_, mut ui) = setup();
    ui.bins_a = vec![bits(-10.0), bits(-20.0)];
    ui.remotes.push(remote(2, vec![bits(-15.0), bits(-15.0)], vec![0, 0]));
    ui.last_version = 1;
    ui.update_diff(minus);
    assert_eq!(ui.remotes[0].diff_bins, vec![0, 0]);
    ui.remotes[0].last_version = 1;
    ui.update_diff(minus);
    assert_eq!(ui.remotes[0].diff_bins, vec![bits(5.0), bits(-5.0)]);
    // Only one side is newer: the differences stay.
    ui.bins_a = vec![bits(0.0), bits(0.0)];
    ui.last_version = 2;
    ui.update_diff(minus);
    assert_eq!(ui.remotes[0].diff_bins, vec![bits(5.0), bits(-5.0)]);
    ui.remotes[0].last_version = 2;
    ui.update_diff(minus);
    assert_eq!(ui.remotes[0].diff_bins, vec![bits(15.0), bits(15.0)]);
}

#[test]
fn sources_are_toggled() {
    let (reg, mut ui) = setup();
    let state = ui.toggle_source(InstanceId(2), &reg);
    assert_eq!(ui.selected_ids, vec![InstanceId(2)]);
    assert!(ui.spectrum.has_remotes());
    assert_eq!(state.selected_remote_names, vec!["Before EQ".to_string()]);
    ui.toggle_source(InstanceId(77), &reg);
    let state = ui.toggle_source(InstanceId(2), &reg);
    assert_eq!(ui.selected_ids, vec![InstanceId(77)]);
    assert!(state.selected_remote_names.is_empty());
    ui.toggle_source(InstanceId(77), &reg);
    assert!(!ui.spectrum.has_remotes());
}

#[test]
fn toggling_twice_restores_the_selection() {
    let (reg, mut ui) = setup();
    ui.selected_ids = vec![InstanceId(5), InstanceId(6)];
    ui.toggle_source(InstanceId(7), &reg);
    assert_eq!(ui.selected_ids, vec![InstanceId(5), InstanceId(6), InstanceId(7)]);
    ui.toggle_source(InstanceId(7), &reg);
    assert_eq!(ui.selected_ids, vec![InstanceId(5), InstanceId(6)]);
}

#[test]
fn saved_state_comes_back() {
    let (reg, mut ui) = setup();
    ui.toggle_source(InstanceId(2), &reg);
    let state = ui.set_view_mode(ViewMode::Diff, &reg);
    assert_eq!(state.view_mode, 2);
    let (_, mut other) = setup();
    other.apply_state(Some(state), &reg);
    assert!(other.view_mode == ViewMode::Diff);
    assert_eq!(other.selected_ids, vec![InstanceId(2)]);
    assert!(other.spectrum.has_remotes());
    assert_eq!(other.instance_name, "Own");
}

#[test]
fn selection_comes_back_though_others_share_names() {
    let (mut reg, mut ui) = setup();
    registry::register(&mut reg, Some("Twin"), 2);
    registry::register(&mut reg, Some("Twin"), 3);
    let state = ui.toggle_source(InstanceId(2), &reg);
    ui.apply_state(Some(state), &reg);
    assert_eq!(ui.selected_ids, vec![InstanceId(2)]);
}

#[test]
fn unknown_names_and_empty_states_are_passed_over() {
    let (reg, mut ui) = setup();
    ui.apply_state(None, &reg);
    assert_eq!(ui.instance_name, "Own");
    let state = PersistentState {
        instance_name: String::new(),
        selected_remote_names: vec!["Nobody".to_string(), "Before EQ".to_string()],
        view_mode: 9,
    };
    ui.apply_state(Some(state), &reg);
    assert_eq!(ui.instance_name, "Own");
    assert_eq!(ui.selected_ids, vec![InstanceId(2)]);
    assert!(ui.view_mode == ViewMode::Both);
    ui.editing_name = true;
    let state = PersistentState { instance_name: "Typed".to_string(), ..PersistentState::default() };
    ui.apply_state(Some(state), &reg);
    assert_eq!(ui.instance_name, "Own");
    assert!(ui.selected_ids.is_empty());
}
