//! Core of a PLONK-style zero-knowledge circuit for a single shielded
//! spend-and-output action over the Pallas curve: the Sinsemilla
//! hash/commitment primitive, the running-sum bit-decomposition gadget,
//! the action gate's constraints, public-input packing, and proof bytes.

pub mod bits;
pub mod circuit;
pub mod field;
pub mod gate;
pub mod instance;
pub mod point;
pub mod proof_bytes;
pub mod running_sum;
pub mod sinsemilla;
