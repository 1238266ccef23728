//! Verified core of a background availability monitor.
//!
//! A configured list of targets (bare hosts or HTTP(S) URLs) is probed each
//! cycle; raw probe outcomes are debounced through per-target fail streaks,
//! diffed against the previous cycle to decide which up/down transitions are
//! worth a notification, and summarized into an aggregate health flag. All of
//! that decision logic lives here with contracts; the surrounding process
//! (network probes, tray rendering, notification delivery, config files) is
//! unverified glue that hands this crate plain values.

pub mod config;
pub mod cycle;
pub mod debounce;
pub mod label;
pub mod probe;
pub mod status;
pub mod ui;
