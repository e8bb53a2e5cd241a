//! Identity-bound commitments over the Ristretto group, with the Σ-protocols
//! that prove relations between them.
pub mod algebra;
pub mod scalar;
pub mod hashing;
pub mod point;
pub mod bytes;
pub mod params;
pub mod transcript;
pub mod commitment;
pub mod encoding;
pub mod sigma;
pub mod ideq;
pub mod vver;
pub mod veq;
pub mod fulleq;
pub mod schnorr;
pub mod mideq;
pub mod txver;
pub mod batchver;
