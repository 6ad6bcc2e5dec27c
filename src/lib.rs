//! An approximate-membership filter (Bloom filter) with verified storage,
//! hashing and configuration, and the services built on top of it.
//!
//! - `storage`: the packed bit array.
//! - `configuration`: capacity, tolerance and bit-length validation.
//! - `hashing`: the number of positions per entry, the pluggable `Hashing`
//!   strategy, the default MurmurHash/FNV double hash, and the manager that
//!   derives an entry's positions.
//! - `filter`: the filter itself, with the laws it obeys.
//! - `storage_service`, `spell_checker`, `weak_password_detector`: the word
//!   store boundary and the two services that put a filter in front of it.
//!
//! The tolerance `p` is taken as the bit pattern of its single-precision float,
//! so that its validation and `k = ceil(-log2(p))` are exact integer work. The
//! bit length `m = -n * ln(p) / (ln 2)^2` needs logarithms, so the caller
//! computes it and the library validates it.

pub mod configuration;
pub mod filter;
pub mod hashing;
pub mod storage;
pub mod storage_service;
pub mod weak_password_detector;
pub mod spell_checker;
