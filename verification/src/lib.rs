pub mod hashing;
pub mod prover;
pub mod tree;
