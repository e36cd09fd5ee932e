//! A logarithmic-size ring signature over secp256k1: a Sigma protocol over
//! Pedersen vector commitments whose final opening is compressed by an
//! inner-product argument.
pub mod field;
pub mod vec;
pub mod group;
pub mod transcript;
pub mod errors;
pub mod pedersen;
pub mod single;
pub mod constraint;
pub mod ipa;
pub mod digest;
pub mod ringsig;
pub mod linear;
pub mod schnorr;
