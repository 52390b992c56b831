//! Data laid out as the walk kernels read it.
use crate::convert::{be_bytes_to_limbs, be_to_limbs_spec};
use k256::elliptic_curve::sec1::ToEncodedPoint;
use k256::AffinePoint;
use vstd::prelude::*;

verus! {

/// An affine curve point as the kernels hold it: both coordinates as eight
/// little-endian 32-bit limbs.
#[derive(Clone, Copy, Debug)]
pub struct GpuAffinePoint {
    pub x: [u32; 8],
    pub y: [u32; 8],
}

/// Build the kernel form of a point from its big-endian coordinates, as they
/// stand in the 64 bytes after the tag of an uncompressed SEC1 encoding.
pub fn coords_to_gpu(x: &[u8; 32], y: &[u8; 32]) -> (p: GpuAffinePoint)
    ensures
        p.x@ == be_to_limbs_spec(x@),
        p.y@ == be_to_limbs_spec(y@),
{
    GpuAffinePoint { x: be_bytes_to_limbs(x), y: be_bytes_to_limbs(y) }
}

#[verifier::external_type_specification]
#[verifier::external_body]
pub struct ExAffinePoint(AffinePoint);

/// The x and y coordinates, as 32 big-endian bytes each, of the uncompressed
/// SEC1 encoding of a point; `None` for the identity, which has none.
pub uninterp spec fn sec1_xy(p: AffinePoint) -> Option<(Seq<u8>, Seq<u8>)>;

/// Relies on k256's `ToEncodedPoint::to_encoded_point(false)` with sec1's
/// `EncodedPoint::x` and `EncodedPoint::y`: a point other than the identity
/// encodes uncompressed, with both coordinates as 32 big-endian bytes; the
/// identity encodes with no coordinates, and both accessors give `None`.
#[verifier::external_body]
fn uncompressed_coordinates(point: &AffinePoint) -> (r: Option<([u8; 32], [u8; 32])>)
    ensures
        r is None <==> sec1_xy(*point) is None,
        r matches Some((x, y)) ==> sec1_xy(*point) == Some((x@, y@)),
{
    let encoded = point.to_encoded_point(false);
    match (encoded.x(), encoded.y()) {
        (Some(x), Some(y)) => Some(((*x).into(), (*y).into())),
        _ => None,
    }
}

/// Convert a curve point to the kernel form, through its uncompressed
/// encoding. The identity has no affine coordinates and gives `None`.
pub fn affine_to_gpu(point: &AffinePoint) -> (r: Option<GpuAffinePoint>)
    ensures
        r is None <==> sec1_xy(*point) is None,
        r matches Some(g) ==> g.x@ == be_to_limbs_spec(sec1_xy(*point)->Some_0.0) && g.y@
            == be_to_limbs_spec(sec1_xy(*point)->Some_0.1),
{
    match uncompressed_coordinates(point) {
        Some((x, y)) => {
            Some(coords_to_gpu(&x, &y))
        },
        None => None,
    }
}

} // verus!
