//! The decisions of a tray launcher that keeps a local web service alive.
//!
//! Nothing here does I/O. What needs the system is a machine: `action` says what is
//! to be done, and `step` takes what came of it. Each machine is described by a spec
//! function from one state to the next, and the proof functions named `law_` state
//! what holds of it, whatever the system answers.
pub mod text;
pub mod bytes;
pub mod wide;
pub mod calendar;
pub mod log;
pub mod history;
pub mod version;
pub mod resource;
pub mod release;
pub mod update;
pub mod http;
pub mod toast;
pub mod process;
pub mod tree;
pub mod listeners;
pub mod output;
pub mod dsh;
pub mod harness;
pub mod tray;
pub mod icons;
pub mod startup;
pub mod watchdog;
