//! Exact fixed-income valuation for coupon-bearing bonds.
//!
//! All quantities (rates in percent, prices, the derived metrics) are exact
//! rational numbers, so every result is either the mathematically exact value
//! or an explicit report that it does not fit the machine representation.

pub mod rational;
pub mod bond;
pub mod laws;

pub use bond::Bond;
pub use bond::BondError;
pub use bond::CompoundingFreq;
pub use bond::CorporateBond;
pub use bond::YieldRoot;
pub use rational::Rat;
