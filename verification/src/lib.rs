//! Semi-AVID-PR: verifiable information dispersal with KZG column commitments
//! and Reed-Solomon row encoding over the scalar field of a pairing-friendly
//! curve.
//!
//! A file is a table of `L` rows and `k` columns of scalars. Dispersal commits
//! to every column and encodes every row into `n` entries, one per storage
//! node; a node checks its column against the commitments alone. Any `k`
//! columns give the file back, and single entries can be opened and verified
//! against the commitment of their column.
//!
//! The modules, bottom up: [`curve`] and [`field`] hold the constants and the
//! arithmetic of the scalar fields, [`poly`] the two forms of polynomials,
//! [`kzg`] the commitment adapter, [`bls12_381`] and [`bn254`] the calls into
//! the arithmetic backends, [`linalg`], [`inversion`] and [`matrix`] the
//! matrix kernel with its inversion and the proof that it inverts,
//! [`scheme`] the protocol, and [`roundtrip`] the proof that retrieval undoes
//! dispersal.

pub mod curve;
pub mod field;
pub mod poly;
pub mod kzg;
pub mod bls12_381;
pub mod bn254;
pub mod linalg;
pub mod inversion;
pub mod matrix;
pub mod scheme;
pub mod roundtrip;
