//! Scalars: integers modulo the order of the secp256k1 group.

use crate::encoding::{
    be_bytes, be_less, be_value, lemma_be_bytes_of_value, lemma_be_value_injective, radix_pow,
};
use crate::error::InvalidInputError;
use k256::elliptic_curve::ops::Reduce;
use k256::elliptic_curve::PrimeField;
use vstd::prelude::*;

verus! {

/// The number of points of secp256k1, a prime.
pub open spec fn group_order() -> nat {
    0xFFFFFFFF_FFFFFFFF_FFFFFFFF_FFFFFFFE_BAAEDCE6_AF48A03B_BFD25E8C_D0364141nat
}

/// The number of bytes of an encoded scalar.
pub const SCALAR_LEN: usize = 32;

/// The group order, big-endian.
pub const ORDER_BYTES: [u8; 32] = [
    0xFF, 0xFF, 0xFF, 0xFF, 0xFF, 0xFF, 0xFF, 0xFF, 0xFF, 0xFF, 0xFF, 0xFF, 0xFF, 0xFF, 0xFF, 0xFE,
    0xBA, 0xAE, 0xDC, 0xE6, 0xAF, 0x48, 0xA0, 0x3B, 0xBF, 0xD2, 0x5E, 0x8C, 0xD0, 0x36, 0x41, 0x41,
];

/// `ORDER_BYTES` spells `group_order()`.
pub proof fn lemma_order_bytes()
    ensures
        ORDER_BYTES@.len() == 32,
        be_value(ORDER_BYTES@) == group_order(),
{
    reveal_with_fuel(be_value, 33);
}

/// Thirty-two bytes hold every value below `2^256`, so every scalar.
pub proof fn lemma_scalar_fits()
    ensures
        radix_pow(32) == 0x1_00000000_00000000_00000000_00000000_00000000_00000000_00000000_00000000nat,
        group_order() < radix_pow(32),
{
    reveal_with_fuel(radix_pow, 33);
}

/// An integer in `[0, group_order())`, held as 32 big-endian bytes.
#[derive(Clone, Copy, Debug)]
pub struct Scalar {
    pub(crate) bytes: [u8; 32],
}

impl View for Scalar {
    type V = nat;

    closed spec fn view(&self) -> nat {
        be_value(self.bytes@)
    }
}

impl Scalar {
    /// What holds of every scalar: it is below the group order.
    #[verifier::type_invariant]
    pub open spec fn reduced(self) -> bool {
        self@ < group_order()
    }

    /// The scalar zero.
    pub fn zero() -> (r: Scalar)
        ensures
            r@ == 0,
    {
        let bytes = [0u8; 32];
        proof {
            lemma_zero_bytes(bytes@);
        }
        Scalar { bytes }
    }

    /// Reads a scalar from its 32-byte big-endian encoding. Bytes that
    /// denote the group order or more are turned away, not reduced. The
    /// comparison stops at the first byte that decides it, so this is for
    /// received bytes, not for secrets.
    pub fn from_bytes(bytes: &[u8]) -> (r: Result<Scalar, InvalidInputError>)
        ensures
            bytes@.len() != 32 ==> r == Err::<Scalar, InvalidInputError>(InvalidInputError::Length),
            bytes@.len() == 32 && be_value(bytes@) >= group_order() ==> r == Err::<
                Scalar,
                InvalidInputError,
            >(InvalidInputError::Scalar),
            bytes@.len() == 32 && be_value(bytes@) < group_order() ==> r is Ok,
            r matches Ok(s) ==> s@ == be_value(bytes@),
    {
        if bytes.len() != SCALAR_LEN {
            return Err(InvalidInputError::Length);
        }
        proof {
            lemma_order_bytes();
        }
        if !be_less(bytes, ORDER_BYTES.as_slice()) {
            return Err(InvalidInputError::Scalar);
        }
        let mut held = [0u8; 32];
        let mut i: usize = 0;
        while i < SCALAR_LEN
            invariant
                i <= 32,
                bytes@.len() == 32,
                forall|j: int| 0 <= j < i ==> held@[j] == bytes@[j],
            decreases 32 - i,
        {
            held[i] = bytes[i];
            i += 1;
        }
        assert(held@ =~= bytes@);
        Ok(Scalar { bytes: held })
    }

    /// The 32-byte big-endian encoding of the scalar.
    pub fn to_bytes(&self) -> (out: [u8; 32])
        ensures
            out@ == be_bytes(self@, 32),
            be_value(out@) == self@,
            self@ < group_order(),
    {
        proof {
            use_type_invariant(self);
            lemma_be_bytes_of_value(self.bytes@);
        }
        self.bytes
    }

    /// The scalar that a 256-bit big-endian integer reduces to.
    pub fn reduce(bytes: &[u8; 32]) -> (r: Scalar)
        ensures
            r@ == be_value(bytes@) % group_order(),
    {
        field_reduce(bytes)
    }

    /// The sum of two scalars, modulo the group order.
    pub fn add(&self, rhs: &Scalar) -> (r: Scalar)
        ensures
            r@ == (self@ + rhs@) % group_order(),
    {
        field_add(self, rhs)
    }

    /// The product of two scalars, modulo the group order.
    pub fn mul(&self, rhs: &Scalar) -> (r: Scalar)
        ensures
            r@ == (self@ * rhs@) % group_order(),
    {
        field_mul(self, rhs)
    }
}

impl PartialEq for Scalar {
    /// Compares all 32 bytes, whatever they hold.
    fn eq(&self, other: &Scalar) -> (r: bool) {
        let mut differing: u8 = 0;
        let mut i: usize = 0;
        while i < SCALAR_LEN
            invariant
                i <= 32,
                differing == 0 <==> forall|j: int| 0 <= j < i ==> self.bytes@[j] == other.bytes@[j],
            decreases 32 - i,
        {
            let a = self.bytes[i];
            let b = other.bytes[i];
            assert(((differing | (a ^ b)) == 0) <==> (differing == 0 && a == b)) by (bit_vector);
            differing = differing | (a ^ b);
            i += 1;
        }
        proof {
            if differing == 0 {
                assert(self.bytes@ =~= other.bytes@);
            } else {
                if self@ == other@ {
                    lemma_be_value_injective(self.bytes@, other.bytes@);
                }
            }
        }
        differing == 0
    }
}

impl vstd::std_specs::cmp::PartialEqSpecImpl for Scalar {
    open spec fn obeys_eq_spec() -> bool {
        true
    }

    open spec fn eq_spec(&self, other: &Scalar) -> bool {
        self@ == other@
    }
}

/// A fresh scalar from the thread's cryptographically secure generator.
/// Every draw lies below the group order; which scalar comes back is not
/// known, and two calls may differ. Where the generator cannot be seeded
/// the call does not return: there is no weaker source to fall back on.
pub fn generate_random_scalar() -> (r: Scalar)
    ensures
        r@ < group_order(),
{
    sample_scalar()
}

/// `k256::Scalar::reduce` on `U256::from_be_slice`: one conditional
/// subtraction of the order, which for a 256-bit input is the remainder
/// modulo the order.
#[verifier::external_body]
fn field_reduce(bytes: &[u8; 32]) -> (r: Scalar)
    ensures
        r@ == be_value(bytes@) % group_order(),
{
    let reduced = k256::Scalar::reduce(k256::U256::from_be_slice(bytes));
    Scalar { bytes: reduced.to_bytes().into() }
}

/// `k256::Scalar + k256::Scalar`: addition modulo the order. Both
/// operands are decoded with `from_repr`, which accepts every value below
/// the order, and the sum is encoded with `to_bytes`.
#[verifier::external_body]
fn field_add(a: &Scalar, b: &Scalar) -> (r: Scalar)
    ensures
        r@ == (a@ + b@) % group_order(),
{
    let x = k256::Scalar::from_repr(a.bytes.into()).unwrap();
    let y = k256::Scalar::from_repr(b.bytes.into()).unwrap();
    Scalar { bytes: (x + y).to_bytes().into() }
}

/// `k256::Scalar * k256::Scalar`: multiplication modulo the order, with
/// the same decoding and encoding as `field_add`.
#[verifier::external_body]
fn field_mul(a: &Scalar, b: &Scalar) -> (r: Scalar)
    ensures
        r@ == (a@ * b@) % group_order(),
{
    let x = k256::Scalar::from_repr(a.bytes.into()).unwrap();
    let y = k256::Scalar::from_repr(b.bytes.into()).unwrap();
    Scalar { bytes: (x * y).to_bytes().into() }
}

/// `k256::Scalar::generate_vartime` on `rand::thread_rng()`: rejection
/// sampling of 32 random bytes until `from_repr` reads them, which it does
/// only for values below the order. The contract claims that range, which
/// holds of every draw, and nothing of which value is drawn. The call
/// panics where the operating system cannot seed the generator.
#[verifier::external_body]
fn sample_scalar() -> (r: Scalar)
    ensures
        r@ < group_order(),
{
    let drawn = k256::Scalar::generate_vartime(&mut rand::thread_rng());
    Scalar { bytes: drawn.to_bytes().into() }
}

/// A byte string of zeros denotes zero.
proof fn lemma_zero_bytes(bytes: Seq<u8>)
    requires
        forall|i: int| 0 <= i < bytes.len() ==> bytes[i] == 0,
    ensures
        be_value(bytes) == 0,
    decreases bytes.len(),
{
    if bytes.len() > 0 {
        lemma_zero_bytes(bytes.drop_last());
    }
}

} // verus!
