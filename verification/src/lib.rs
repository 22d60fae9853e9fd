//! Decoder for the flight computer's binary telemetry log.
//!
//! The log is a flat run of packets, each one a sensor ID byte followed by
//! that sensor's values. Which sensors exist, what values they carry and in
//! which byte order is given by a [`configuration::RocketConfig`]. The
//! [`data`] module turns bytes into packets, [`result_table`] groups packets
//! into table rows, and [`csv`] and [`report`] render those rows.

pub mod configuration;
pub mod text;
pub mod bytes;
pub mod data;
pub mod result_table;
mod digits;
pub mod float_text;
pub mod csv;
pub mod report;
