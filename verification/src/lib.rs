//! A spectrum analyzer's state, protocols and display rules.

pub mod analyzer;
pub mod arithmetic;
pub mod file_registry;
pub mod header;
pub mod kernel;
pub mod level;
pub mod mono;
pub mod plot;
pub mod plugin;
pub mod readout;
pub mod region;
pub mod registry;
pub mod shm_calls;
pub mod shmem;
pub mod spectrum;
pub mod text;
pub mod ui_state;
pub mod worker;
