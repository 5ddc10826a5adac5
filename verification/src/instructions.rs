//! The four operations on a treasury.

pub mod close_treasury;
pub mod create_treasury;
pub mod distribute;
pub mod set_treasury_is_closeable;
