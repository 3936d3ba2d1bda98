//! Polynomial interactive oracle proofs over the BN254 scalar field: virtual
//! oracles, zero / non-zero tests over a subgroup, geometric sequence tests,
//! discrete-log comparison and the t-strictly-lower-triangular test.
pub mod field;
pub mod poly;
pub mod error;
pub mod domain;
pub mod vo;
pub mod transcript;
pub mod kzg;
pub mod commitment;
pub mod zero_over_k;
pub mod gate;
pub mod non_zero_over_k;
pub mod geo_seq;
pub mod discrete_log_comparison;
pub mod t_strictly_lower_triangular_test;
