//! Scalar and point helpers for a Schnorr-style signature scheme over the
//! prime-order group built on Curve25519: exact scaling of 256-bit
//! little-endian scalars by the cofactor 8, sampling of a scalar from 64
//! bytes of hash output, and the bridge between a point of the curve and a
//! point of the prime-order quotient group.

pub mod cofactor;
pub mod errors;
pub mod point;
pub mod scalar;
