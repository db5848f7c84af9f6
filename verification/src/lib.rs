//! Network traffic statistics that survive restarts and reboots.
//!
//! Byte counters of network interfaces are summed up ([`traffic`]) and turned into totals for a
//! cycle ([`realtime`]). The state is kept in a text file ([`network_info`]), from which a session
//! resumes ([`session`]). A cycle ends after a fixed time or at a day of the calendar ([`reset`],
//! [`calendar`]). [`saver`] decides what the program does next. [`storage`], [`schedule`] and
//! [`continuity`] state what holds of all of this, and each other module what holds of its own
//! functions.

pub mod calendar;
pub mod config;
pub mod continuity;
pub mod network_info;
pub mod number;
pub mod realtime;
pub mod reset;
pub mod saver;
pub mod schedule;
pub mod session;
pub mod storage;
pub mod text;
pub mod traffic;
