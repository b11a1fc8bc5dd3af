//! Core of a desktop virtual-pet overlay: the snack currency state with its
//! usage statistics, the canonical save-document codec, and the multi-monitor
//! bounding-rectangle calculation.
//!
//! The state manager ([`state::SnackState`]) owns the in-memory [`save::SaveData`]
//! and exposes the atomic read-modify-write operations the UI commands need.
//! The codec ([`codec`]) turns a save state into the byte document written to
//! disk and back; the host shell performs the actual file reads and writes.
//! The geometry calculator ([`geometry`]) computes the minimal axis-aligned
//! rectangle spanning a set of monitors.

pub mod codec;
pub mod geometry;
pub mod save;
pub mod state;
