//! The verified core of a desktop game launcher: crediting run time to the
//! processes seen at each sampling cycle, and the rules around the game list.

pub mod accumulator;
pub mod game;
pub mod hidden;
pub mod kill_all;
pub mod launcher;
pub mod sampler;
pub mod snapshot;
pub mod text;
pub mod time_format;

pub use accumulator::{TimeAccumulator, TimeEntry};
pub use game::{Game, Platform, RegistrationError};
pub use hidden::HiddenSet;
pub use kill_all::{plan_panic, KillCommand, PanicStep};
pub use launcher::{GameLunch, Page};
pub use sampler::{sample_cycle, CycleReport, LoopState, Observation};
pub use snapshot::Snapshot;
pub use time_format::{format_time, listing_line};
