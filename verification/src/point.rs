//! Points of secp256k1, held in compressed form.
//!
//! A point is identified with its 33-byte encoding: a tag byte (`0x02` or
//! `0x03` for the parity of the y-coordinate) and the big-endian
//! x-coordinate, or 33 zero bytes for the point at infinity. The group
//! operations themselves are `k256`'s; here they only have names.

use crate::error::InvalidInputError;
use crate::scalar::{group_order, Scalar};
use k256::elliptic_curve::group::GroupEncoding;
use k256::elliptic_curve::PrimeField;
use vstd::prelude::*;

verus! {

/// The number of bytes of an encoded point.
pub const POINT_LEN: usize = 33;

/// The tag of the compact form, which `k256` reads as well as the
/// compressed form but never writes.
pub const TAG_COMPACT: u8 = 5;

/// Whether `k256` reads `bytes` as a point of the curve.
pub uninterp spec fn point_decodes(bytes: Seq<u8>) -> bool;

/// The encoding of the sum of the points that `p` and `q` encode.
pub uninterp spec fn group_add(p: Seq<u8>, q: Seq<u8>) -> Seq<u8>;

/// The encoding of `k` times the point that `p` encodes.
pub uninterp spec fn group_mul(p: Seq<u8>, k: nat) -> Seq<u8>;

/// Whether `bytes` is the encoding that this library holds for some point:
/// one that `k256` reads, and not in compact form.
pub open spec fn is_point_encoding(bytes: Seq<u8>) -> bool {
    bytes.len() == 33 && bytes[0] != TAG_COMPACT && point_decodes(bytes)
}

/// `p` is `a` times the point `g`, for a scalar `a`.
pub open spec fn is_multiple(p: Seq<u8>, g: Seq<u8>, a: nat) -> bool {
    is_point_encoding(g) && a < group_order() && p == group_mul(g, a)
}

/// `r` is `k` times `p` as far as multiples go: where `p` is `a` times
/// some point, `r` is `a * k` times that point.
pub open spec fn scales_multiples(p: Seq<u8>, k: nat, r: Seq<u8>) -> bool {
    forall|g: Seq<u8>, a: nat| #[trigger]
        is_multiple(p, g, a) ==> is_multiple(r, g, (a * k) % group_order())
}

/// `r` is `p + q` as far as multiples go: where `p` and `q` are `a` and
/// `b` times one point, `r` is `a + b` times that point.
pub open spec fn adds_multiples(p: Seq<u8>, q: Seq<u8>, r: Seq<u8>) -> bool {
    forall|g: Seq<u8>, a: nat, b: nat|
        #[trigger] is_multiple(p, g, a) && #[trigger] is_multiple(q, g, b) ==> is_multiple(
            r,
            g,
            (a + b) % group_order(),
        )
}

/// The compressed encoding of the standard base point.
pub const GENERATOR_BYTES: [u8; 33] = [
    0x02, 0x79, 0xBE, 0x66, 0x7E, 0xF9, 0xDC, 0xBB, 0xAC, 0x55, 0xA0, 0x62, 0x95, 0xCE, 0x87, 0x0B,
    0x07, 0x02, 0x9B, 0xFC, 0xDB, 0x2D, 0xCE, 0x28, 0xD9, 0x59, 0xF2, 0x81, 0x5B, 0x16, 0xF8, 0x17,
    0x98,
];

/// A point of the curve, the point at infinity included.
#[derive(Clone, Copy, Debug)]
pub struct Point {
    bytes: [u8; 33],
}

impl View for Point {
    type V = Seq<u8>;

    closed spec fn view(&self) -> Seq<u8> {
        self.bytes@
    }
}

impl Point {
    /// What holds of every point: its bytes are a point's encoding.
    #[verifier::type_invariant]
    pub open spec fn encoded(self) -> bool {
        is_point_encoding(self@)
    }

    /// The standard base point of secp256k1.
    pub fn generator() -> (g: Point)
        ensures
            g@ == GENERATOR_BYTES@,
            is_point_encoding(g@),
    {
        let g = base_point();
        proof {
            use_type_invariant(&g);
        }
        g
    }

    /// Reads a point from its 33-byte compressed encoding: a tag `0x02` or
    /// `0x03` and an x-coordinate of the curve, or 33 zero bytes for the
    /// point at infinity. Everything else is turned away, the compact form
    /// with tag `0x05` included.
    pub fn from_bytes(bytes: &[u8]) -> (r: Result<Point, InvalidInputError>)
        ensures
            bytes@.len() != 33 ==> r == Err::<Point, InvalidInputError>(InvalidInputError::Length),
            bytes@.len() == 33 && !is_point_encoding(bytes@) ==> r == Err::<
                Point,
                InvalidInputError,
            >(InvalidInputError::Point),
            is_point_encoding(bytes@) ==> r is Ok,
            r matches Ok(p) ==> p@ == bytes@,
    {
        if bytes.len() != POINT_LEN {
            return Err(InvalidInputError::Length);
        }
        let mut held = [0u8; 33];
        let mut i: usize = 0;
        while i < POINT_LEN
            invariant
                i <= 33,
                bytes@.len() == 33,
                forall|j: int| 0 <= j < i ==> held@[j] == bytes@[j],
            decreases 33 - i,
        {
            held[i] = bytes[i];
            i += 1;
        }
        assert(held@ =~= bytes@);
        if held[0] == TAG_COMPACT {
            return Err(InvalidInputError::Point);
        }
        match decode_point(&held) {
            Some(p) => Ok(p),
            None => Err(InvalidInputError::Point),
        }
    }

    /// The 33-byte compressed encoding of the point.
    pub fn to_bytes(&self) -> (out: [u8; 33])
        ensures
            out@ == self@,
            is_point_encoding(out@),
    {
        proof {
            use_type_invariant(self);
        }
        self.bytes
    }

    /// The sum of two points.
    pub fn add(&self, other: &Point) -> (r: Point)
        ensures
            r@ == group_add(self@, other@),
            adds_multiples(self@, other@, r@),
            is_point_encoding(r@),
    {
        let r = curve_add(self, other);
        proof {
            use_type_invariant(&r);
        }
        r
    }

    /// `k` times the point.
    pub fn mul(&self, k: &Scalar) -> (r: Point)
        ensures
            r@ == group_mul(self@, k@),
            scales_multiples(self@, k@, r@),
            is_point_encoding(r@),
    {
        let r = curve_mul(self, k);
        proof {
            use_type_invariant(&r);
        }
        r
    }
}

impl PartialEq for Point {
    /// Two points are the same group element where their encodings are
    /// the same bytes.
    fn eq(&self, other: &Point) -> (r: bool) {
        let mut i: usize = 0;
        while i < POINT_LEN
            invariant
                i <= 33,
                forall|j: int| 0 <= j < i ==> self.bytes@[j] == other.bytes@[j],
            decreases 33 - i,
        {
            if self.bytes[i] != other.bytes[i] {
                return false;
            }
            i += 1;
        }
        assert(self.bytes@ =~= other.bytes@);
        true
    }
}

impl vstd::std_specs::cmp::PartialEqSpecImpl for Point {
    open spec fn obeys_eq_spec() -> bool {
        true
    }

    open spec fn eq_spec(&self, other: &Point) -> bool {
        self@ == other@
    }
}

/// `k256::ProjectivePoint::GENERATOR`, encoded with `to_bytes`. The
/// contract claims that the encoding is `GENERATOR_BYTES`: the tag for an
/// even y-coordinate and the x-coordinate that `k256` lists for its base
/// point.
#[verifier::external_body]
fn base_point() -> (g: Point)
    ensures
        g@ == GENERATOR_BYTES@,
{
    Point { bytes: k256::ProjectivePoint::GENERATOR.to_bytes().into() }
}

/// `k256::ProjectivePoint::from_bytes` (of `GroupEncoding`), and `to_bytes`
/// on what it read. The contract names whether the bytes are read, and
/// claims that a point read from bytes that are not in compact form
/// encodes back to those bytes: the tag keeps the parity it asked for, and
/// an x-coordinate at or above the field's modulus is turned away.
#[verifier::external_body]
fn decode_point(bytes: &[u8; 33]) -> (r: Option<Point>)
    ensures
        r.is_some() == point_decodes(bytes@),
        r matches Some(p) ==> (bytes@[0] != TAG_COMPACT ==> p@ == bytes@),
{
    let read: Option<k256::ProjectivePoint> = k256::ProjectivePoint::from_bytes(
        bytes.into(),
    ).into();
    match read {
        Some(p) => Some(Point { bytes: p.to_bytes().into() }),
        None => None,
    }
}

/// `k256::ProjectivePoint + k256::ProjectivePoint`, on points decoded with
/// `from_bytes` and encoded with `to_bytes`. The contract names the sum
/// and claims one law of the group: the sum of `a` times and `b` times a
/// point is `a + b` times that point, the scalars taken modulo the order.
#[verifier::external_body]
fn curve_add(p: &Point, q: &Point) -> (r: Point)
    ensures
        r@ == group_add(p@, q@),
        adds_multiples(p@, q@, r@),
{
    let a = k256::ProjectivePoint::from_bytes((&p.bytes).into()).unwrap();
    let b = k256::ProjectivePoint::from_bytes((&q.bytes).into()).unwrap();
    Point { bytes: (a + b).to_bytes().into() }
}

/// `k256::ProjectivePoint * k256::Scalar`, on a point decoded with
/// `from_bytes`, a scalar decoded with `from_repr`, and the product
/// encoded with `to_bytes`. The contract names the product and claims one
/// law of the group: `k` times `a` times a point is `a * k` times that
/// point, the scalars taken modulo the order.
#[verifier::external_body]
fn curve_mul(p: &Point, k: &Scalar) -> (r: Point)
    ensures
        r@ == group_mul(p@, k@),
        scales_multiples(p@, k@, r@),
{
    let a = k256::ProjectivePoint::from_bytes((&p.bytes).into()).unwrap();
    let s = k256::Scalar::from_repr(k.bytes.into()).unwrap();
    Point { bytes: (a * s).to_bytes().into() }
}

} // verus!
