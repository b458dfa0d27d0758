//! Bare-metal memory management core of a quadrotor flight controller.
//!
//! The crate verifies the pieces every other subsystem of the firmware
//! silently depends on: two heap allocator designs (an intrusive free-list
//! allocator and a bump/arena allocator), the busy-wait mutex and the
//! one-time-initialization cell that guard them, and the pure address and
//! alignment arithmetic underneath.  Addresses are modelled as plain
//! machine-word integers and are never aliased with real pointers, so the
//! allocator logic can be exercised against synthetic address ranges.

pub mod block;
pub mod bump;
pub mod esc;
pub mod free_list;
pub mod gy521;
pub mod heap;
pub mod layout;
pub mod sync;
