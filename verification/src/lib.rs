//! A closed, verified core for an i3bar status line: markup, cycles, units,
//! posture persistence and the probe scheduling state machine.

pub mod text;
pub mod parse;
pub mod color;
pub mod markup;
pub mod display;
pub mod bar;
pub mod units;
pub mod state;
pub mod reactor;
pub mod config;
