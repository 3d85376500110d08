//! Memory stores and oblivious-transfer bookkeeping for two-party computation.
pub mod binary;
pub mod cell_store;
pub mod correlated;
pub mod gf128;
pub mod decode;
pub mod memory;
pub mod range_set;
pub mod visibility;
pub mod hash;
pub mod correlated_store;
pub mod rng;
pub mod garble;
pub mod ot;
pub mod vm;
pub mod circuit;
pub mod zk;
