//! Constant-product liquidity pool engine with exact integer arithmetic.
//!
//! A pool holds two reserves and a supply of claim units. Providers deposit both assets for
//! claim units and redeem claim units for their part of both reserves; traders swap one
//! asset for the other at the constant-product price, less a fee that stays in the pool.
//! The engine computes amounts and the next state of the pool; moving the assets is the
//! business of the host.

pub mod errors;
pub mod laws;
pub mod liquidity;
pub mod pool;
pub mod sqrt;
pub mod swap;

pub use crate::errors::AMMErrors;
pub use crate::liquidity::{deposite, remove_liquidity};
pub use crate::pool::{initialize, Pool, PoolState, BASIS_POINTS, DEFAULT_FEE_BASIS_POINTS};
pub use crate::sqrt::IntegerSqrt;
pub use crate::swap::swap;
