use truce_analyzer::analyzer::KernelPoll;
use truce_analyzer::arithmetic::Arithmetic;
use truce_analyzer::file_registry::{FileRegistry, FileRegistryEntry};
use truce_analyzer::kernel::SparseKernel;
use truce_analyzer::plugin::{amplify, ChannelMode, TruceAnalyzer};
use truce_analyzer::region::shm_total_size;
use truce_analyzer::registry::{self, InstanceId, RegistryInner};
use truce_analyzer::shmem::open_shared_spectrum;
use truce_analyzer::spectrum::{SpectrumData, MODE_SUM};
use truce_analyzer::spectrum::{MODE_BOTH, MODE_DIFF, MODE_LEFT, MODE_RIGHT};
use truce_analyzer::text::{decimal, labelled};
use truce_analyzer::ui_state::{pick_source, PersistentState, Source};

fn times(x: u32, y: u32) -> u32 {
    (f32::from_bits(x) * f32::from_bits(y)).to_bits()
}

fn bits(x: f32) -> u32 {
    x.to_bits()
}

fn math() -> Arithmetic<
    f32,
    impl Fn(u32, u32) -> u32,
    impl Fn(u32, u32) -> u32,
    impl Fn(Vec<u32>) -> Vec<f32>,
    impl Fn(f32, f32, f32) -> f32,
    impl Fn(f32, usize) -> u32,
    impl Fn(u32, u32, u32) -> u32,
> {
    Arithmetic {
        zero: 0.0f32,
        half_sum: |l: u32, r: u32| bits((f32::from_bits(l) + f32::from_bits(r)) * 0.5),
        half_difference: |l: u32, r: u32| bits((f32::from_bits(l) - f32::from_bits(r)) * 0.5),
        transform: |v: Vec<u32>| v.into_iter().map(f32::from_bits).collect::<Vec<f32>>(),
        accumulate: |s: f32, x: f32, y: f32| s + x * y,
        level: |x: f32, _: usize| bits(x),
        smooth: |_: u32, to: u32, _: u32| to,
    }
}

fn new_plugin(
    reg: &mut RegistryInner<u8>,
    file: &mut FileRegistry,
    region: bool,
) -> TruceAnalyzer<f32> {
    let spectrum = SpectrumData::new(vec![bits(100.0)]);
    let region = if region { Some(vec![0u8; shm_total_size(1)]) } else { None };
    let alive = vec![true; file.instances.len()];
    TruceAnalyzer::new(spectrum, 9, region, reg, file, 4321, &alive)
}

#[test]
fn channel_modes_have_numbers() {
    assert_eq!(ChannelMode::Sum.as_mode_u8(), MODE_SUM);
    assert_eq!(ChannelMode::Both.as_mode_u8(), MODE_BOTH);
    assert_eq!(ChannelMode::Left.as_mode_u8(), MODE_LEFT);
    assert_eq!(ChannelMode::Right.as_mode_u8(), MODE_RIGHT);
    assert_eq!(ChannelMode::Diff.as_mode_u8(), MODE_DIFF);
    assert_eq!(ChannelMode::Right.label(), "Right");
    assert_eq!((MODE_SUM, MODE_BOTH, MODE_LEFT, MODE_RIGHT, MODE_DIFF), (0, 1, 2, 3, 4));
}

#[test]
fn instance_comes_and_goes() {
    let mut reg = RegistryInner::new();
    let mut file = FileRegistry::default();
    let plugin = new_plugin(&mut reg, &mut file, true);
    assert_eq!(plugin.instance_id(), InstanceId(1));
    assert_eq!(registry::name_of(&reg, InstanceId(1)), Some("Analyzer 1".to_string()));
    assert_eq!(plugin.save_state().instance_name, "Analyzer 1");
    let writer = plugin.analyzer().shmem_writer().unwrap();
    assert_eq!(writer.shm_name(), "/truce-analyzer-1");
    assert_eq!(&writer.region()[28..38], b"Analyzer 1");
    assert_eq!(file.instances.len(), 1);
    assert_eq!(file.instances[0].pid, 4321);
    assert_eq!(file.instances[0].shm_name, "/truce-analyzer-1");

    plugin.retire(&mut reg, &mut file);
    assert!(registry::get(&reg, InstanceId(1)).is_none());
    assert!(file.instances.is_empty());
}

#[test]
fn instance_lives_without_a_region() {
    let mut reg = RegistryInner::new();
    let mut file = FileRegistry {
        instances: vec![FileRegistryEntry {
            id: 8,
            name: "Other".to_string(),
            shm_name: "/truce-analyzer-8".to_string(),
            pid: 1,
        }],
    };
    let plugin = new_plugin(&mut reg, &mut file, false);
    assert!(plugin.analyzer().shmem_writer().is_none());
    assert_eq!(file.instances.len(), 2);
    plugin.retire(&mut reg, &mut file);
    assert_eq!(file.instances.len(), 1);
    assert_eq!(file.instances[0].id, 8);
}

fn kernels() -> KernelPoll<f32> {
    KernelPoll::Ready(vec![SparseKernel { entries: vec![(1, 1.0)] }])
}

#[test]
fn audio_is_amplified_and_analyzed() {
    let mut reg = RegistryInner::new();
    let mut file = FileRegistry::default();
    let mut plugin = new_plugin(&mut reg, &mut file, true);
    assert!(plugin.reset(bits(44100.0), 2));
    let inputs = vec![vec![bits(-10.0); 2048], vec![bits(-20.0); 2048], vec![bits(-30.0); 2048]];
    let gains = vec![bits(0.5); 2048];
    let outputs =
        plugin.process(&inputs, &gains, ChannelMode::Right, &times, &kernels, &math());
    assert_eq!(outputs.len(), 3);
    assert!(outputs[0].iter().all(|s| *s == bits(-5.0)));
    assert!(outputs[2].iter().all(|s| *s == bits(-15.0)));
    let spectrum = plugin.analyzer().spectrum();
    assert_eq!(spectrum.version(), 1);
    assert_eq!(spectrum.mode(), MODE_RIGHT);
    assert_eq!(spectrum.read_bin(0), bits(-10.0));
    let bytes = plugin.analyzer().shmem_writer().unwrap().region().to_vec();
    assert!(open_shared_spectrum(Some(bytes), |k: usize| k as u32).is_some());

    plugin.set_has_remotes(true);
    plugin.process(&inputs, &gains, ChannelMode::Right, &times, &kernels, &math());
    let spectrum = plugin.analyzer().spectrum();
    assert_eq!(spectrum.mode(), MODE_SUM);
    assert_eq!(spectrum.read_bin(0), bits(-7.5));

    assert!(!plugin.reset(bits(44100.0), 2));
    assert!(plugin.reset(bits(48000.0), 2));
}

#[test]
fn a_single_channel_is_heard_on_both_sides() {
    let mut reg = RegistryInner::new();
    let mut file = FileRegistry::default();
    let mut plugin = new_plugin(&mut reg, &mut file, false);
    plugin.reset(bits(44100.0), 2);
    let inputs = vec![vec![bits(-10.0); 2048]];
    let gains = vec![bits(1.0); 2048];
    plugin.process(&inputs, &gains, ChannelMode::Both, &times, &kernels, &math());
    let spectrum = plugin.analyzer().spectrum();
    assert_eq!(spectrum.read_bin(0), bits(-10.0));
    assert_eq!(spectrum.read_bin_b(0), bits(-10.0));
}

#[test]
fn no_channels_nothing_happens() {
    let mut reg = RegistryInner::new();
    let mut file = FileRegistry::default();
    let mut plugin = new_plugin(&mut reg, &mut file, false);
    plugin.reset(bits(44100.0), 2);
    let outputs =
        plugin.process(&vec![], &vec![bits(1.0); 4096], ChannelMode::Left, &times, &kernels, &math());
    assert!(outputs.is_empty());
    assert_eq!(plugin.analyzer().spectrum().mode(), MODE_SUM);
    assert_eq!(plugin.analyzer().spectrum().version(), 0);
}

#[test]
fn unity_gain_changes_nothing() {
    let inputs = vec![vec![bits(0.25), bits(-0.5)]];
    assert_eq!(amplify(&inputs, &vec![bits(1.0); 2], &times), inputs);
}

#[test]
fn loaded_name_is_registered() {
    let mut reg = RegistryInner::new();
    let mut file = FileRegistry::default();
    let mut plugin = new_plugin(&mut reg, &mut file, false);
    plugin.load_state(None, &mut reg);
    assert_eq!(plugin.save_state().instance_name, "Analyzer 1");
    let state = PersistentState {
        instance_name: "Kick".to_string(),
        selected_remote_names: vec!["Bus".to_string()],
        view_mode: 2,
    };
    plugin.load_state(Some(state), &mut reg);
    assert_eq!(registry::name_of(&reg, InstanceId(1)), Some("Kick".to_string()));
    assert_eq!(plugin.save_state().instance_name, "Kick");
    assert_eq!(plugin.save_state().selected_remote_names, vec!["Bus".to_string()]);
    plugin.load_state(Some(PersistentState::default()), &mut reg);
    assert_eq!(registry::name_of(&reg, InstanceId(1)), Some("Kick".to_string()));
    assert_eq!(plugin.save_state().instance_name, "");
}

#[test]
fn loading_makes_another_instance_save_the_same() {
    let mut reg = RegistryInner::new();
    let mut file = FileRegistry::default();
    let mut a = new_plugin(&mut reg, &mut file, false);
    let b = new_plugin(&mut reg, &mut file, false);
    let state = b.save_state();
    let copy = PersistentState {
        instance_name: state.instance_name.clone(),
        selected_remote_names: state.selected_remote_names.clone(),
        view_mode: state.view_mode,
    };
    a.load_state(Some(copy), &mut reg);
    assert_eq!(a.save_state().instance_name, b.save_state().instance_name);
    assert_eq!(registry::name_of(&reg, InstanceId(1)), Some("Analyzer 2".to_string()));
    assert_eq!(registry::name_of(&reg, InstanceId(2)), Some("Analyzer 2".to_string()));
}

#[test]
fn sources_of_this_process_come_first() {
    let local = SpectrumData::new(vec![]);
    assert!(matches!(pick_source(Some(local), None), Some(Source::Local(_))));
    assert!(pick_source(None, None).is_none());
}

#[test]
fn numbers_are_written_in_decimal() {
    assert_eq!(decimal(0), "0");
    assert_eq!(decimal(1234567890), "1234567890");
    assert_eq!(decimal(u64::MAX), "18446744073709551615");
    assert_eq!(labelled("#", 10), "#10");
}
