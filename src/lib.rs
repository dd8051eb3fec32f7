//! Telemetry codec and transport framing for high-altitude-balloon payloads.
//!
//! The library assembles a fixed-layout, labelled and delimited telemetry packet,
//! protects it with Reed-Solomon parity, repairs received packets with the help of
//! the layout's structural skeleton, compresses coordinates into 24-bit values, and
//! frames data for AX.25 (APRS) and KISS links.

/// Constants and the block type vocabulary shared across the project.
pub mod parameters;

/// Bit packing of status flags and the coordinate codec.
pub mod figures;

/// The block layout engine: layout tables, framed blocks and packet skeletons.
pub mod qpacket;

/// Telemetry blocks, packet assembly, Reed-Solomon protection and skeleton-aided repair.
pub mod telemetry;

/// One-call packet generation from telemetry readings.
pub mod easypacket;

pub use easypacket::{generate_packet, generate_packet_no_fec};

/// KISS framing between a host and a terminal node controller.
pub mod tnc;

/// AX.25 UI frames for APRS.
pub mod aprs;
