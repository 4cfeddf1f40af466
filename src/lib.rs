//! Turns a series of power-measurement snapshots into the energy report of one
//! process: its mean power, its active duration and the energy they give, in
//! microwatt-seconds and in watt-hours, with the build context.
//!
//! Readings are whole microwatts and timestamps whole microseconds. Every
//! figure is a fixed-point `Decimal`: the duration and the energy in
//! microwatt-seconds are exact, the mean power is rounded down to a millionth
//! of a microwatt, and the energy in watt-hours is rounded down to at least
//! eighteen fractional digits. Each is written as its shortest text, which
//! reads back to the same value.
//!
//! A reading belongs to the requested process when its executable is the
//! requested name itself or a path ending in `/` and that name. The mean power
//! weighs every matched reading alike, whatever the time between them.
pub mod aggregate;
pub mod cc_format;
pub mod decimal;
pub mod energy;
pub mod error;
pub mod measure;
pub mod report;
pub mod user;
