//! Accounting for a treasury that several owners share.
//!
//! A treasury holds a balance for a fixed set of owners, each entitled to a
//! share stated in basis points. The crate computes what each owner is paid
//! out of a balance, what part of the balance cannot be split and stays
//! behind, and when a treasury may be closed. It moves no funds itself: the
//! caller reads the balances, asks for a decision and carries it out.

pub mod address;
pub mod divisor;
pub mod error;
pub mod instructions;
pub mod shares;
pub mod state;

pub use crate::address::Address;
pub use crate::error::TreasuryError;
pub use crate::instructions::close_treasury::{close_treasury, Refund};
pub use crate::instructions::create_treasury::create_treasury;
pub use crate::instructions::distribute::{distribute, Distribution};
pub use crate::instructions::set_treasury_is_closeable::set_treasury_is_closeable;
pub use crate::state::{Treasury, TreasuryOwner};
