pub mod arith;
pub mod error;
pub mod hash;
pub mod lockup;
pub mod schedule;
pub mod util;
pub mod contract;
pub mod mft;
pub mod owner;
pub mod views;
