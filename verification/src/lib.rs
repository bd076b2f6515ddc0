//! Decision and parsing logic of a Windows performance monitor.
pub mod text;
pub mod pdh;
pub mod hwinfo_manager;
pub mod hwinfo;
pub mod data;
pub mod processes;
pub mod ring_buffer;
pub mod monitor;
pub mod sysinfo_collector;
