//! Rules and small algorithms of a Vulkan set-up: which memory type backs a
//! resource, how a flag word splits into its bits, which device and queue
//! family are adequate.
//!
//! Everything here works on plain values; the calls into the graphics driver
//! are the caller's business.

pub mod accessors;
pub mod bits;
pub mod constants;
pub mod device;
pub mod gfx_traits;
pub mod memory;
pub mod names;
pub mod transfer;
