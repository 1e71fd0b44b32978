//! KZG polynomial commitments over the BLS12-381 scalar field: polynomial
//! algebra, the structured reference string, commitments, opening proofs and
//! their pairing check.

pub mod field;
pub mod group;
pub mod kzg;
pub mod polynomials;
pub mod ts;
