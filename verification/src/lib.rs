//! Pairing-friendly elliptic curve arithmetic over the BN254 curve: its base field `Fq`, its
//! scalar field `Fr`, the quadratic extension `Fq2`, the groups `G1` and `G2`, and the optimal
//! ate pairing into the target group `Gt`.
pub mod arith;
pub mod modular;
pub mod fp;
pub mod fq2;
pub mod g1;
pub mod g2;
pub mod group;
pub mod fq12;
pub mod pairing;
pub mod laws;
mod tower_algebra;
mod frobenius_algebra;
mod power_algebra;
mod group_algebra;
mod group2_algebra;
mod line_algebra;

pub use fp::{Fq, Fr};
pub use fq2::Fq2;
pub use g1::{AffineG1, G1};
pub use g2::{AffineG2, G2};
pub use group::Group;
pub use pairing::{
    miller_loop_batch, pairing, pairing_batch, pairing_batch_checked, pairing_checked, Gt,
};

use vstd::prelude::*;

verus! {

/// Errors of the field element conversions.
#[derive(Debug, Clone, Copy, PartialEq, Eq)]
pub enum FieldError {
    InvalidSliceLength,
    InvalidU512Encoding,
    NotMember,
}

/// Errors of the curve point decodings.
#[derive(Debug, Clone, Copy, PartialEq, Eq)]
pub enum CurveError {
    InvalidEncoding,
    NotMember,
    Field(FieldError),
    ToAffineConversion,
}

impl From<FieldError> for CurveError {
    fn from(fe: FieldError) -> (r: CurveError)
        ensures
            r == CurveError::Field(fe),
    {
        CurveError::Field(fe)
    }
}

impl vstd::std_specs::convert::FromSpecImpl<FieldError> for CurveError {
    open spec fn obeys_from_spec() -> bool {
        true
    }

    open spec fn from_spec(fe: FieldError) -> CurveError {
        CurveError::Field(fe)
    }
}

/// Errors of the construction of affine points.
#[derive(Debug, Clone, Copy, PartialEq, Eq)]
pub enum GroupError {
    NotOnCurve,
    NotInSubgroup,
}

} // verus!
