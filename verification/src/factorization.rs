//! Integer factorization: the exact method and the fast, lossy one.

pub mod primes;
pub mod simple;
