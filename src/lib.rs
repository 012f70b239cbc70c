//! A bonding-curve market maker: wide fixed-point arithmetic, pricing curves
//! with exact cumulative cost, and the pool state machine that settles buys
//! and sells against them; beside it, the split of a profile's minting cost
//! among its lineage.
pub mod curve;
pub mod distribution;
pub mod error;
pub mod pool;
pub mod precise;
pub mod signed;
pub mod wide;
