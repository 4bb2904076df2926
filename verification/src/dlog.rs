//! Schnorr proofs of knowledge of a discrete logarithm, made
//! non-interactive by deriving the challenge from a hash of the transcript.
//!
//! The prover knows `x` with `y = x * g`. It commits to `t = r * g` for a
//! fresh nonce `r`, derives the challenge `c` from the session id, the
//! party id and the points `g`, `y`, `t`, and answers with
//! `s = r + c * x`. The verifier accepts when `s * g = t + c * y`.

use crate::encoding::{
    be_bytes, be_value, lemma_be_bytes_len, lemma_be_bytes_of_value, lemma_be_value_of_bytes,
};
use crate::error::InvalidInputError;
use crate::point::{group_add, group_mul, is_multiple, is_point_encoding, Point};
use crate::scalar::{generate_random_scalar, group_order, lemma_scalar_fits, Scalar};
use crate::transcript::{
    append_bytes, digest_bytes, encodings, lemma_transcript_injective, sha256_digest, transcript,
    transcript_bytes,
};
use vstd::arithmetic::div_mod::{lemma_add_mod_noop_right, lemma_mod_equivalence, lemma_small_mod};
use vstd::prelude::*;
use vstd::slice::slice_subrange;
use vstd::string::StringSliceAdditionalSpecFns;
use vstd::utf8::encode_utf8_decode_utf8;

verus! {

/// The challenge for a session id, a party id and a list of encoded
/// points: the SHA-256 digest of their transcript, read as a big-endian
/// integer and reduced modulo the group order.
pub open spec fn challenge_value(sid: Seq<u8>, pid: u64, points: Seq<Seq<u8>>) -> nat {
    be_value(sha256_digest(transcript(sid, pid, points))) % group_order()
}

/// The challenge of a proof with commitment `t` for the statement
/// `(g, y)`: the points are hashed in the order base point, public point,
/// commitment.
pub open spec fn proof_challenge(
    sid: Seq<u8>,
    pid: u64,
    g: Seq<u8>,
    y: Seq<u8>,
    t: Seq<u8>,
) -> nat {
    challenge_value(sid, pid, seq![g, y, t])
}

/// The response to challenge `c` for secret `x` and nonce `r`.
pub open spec fn response(r: nat, c: nat, x: nat) -> nat {
    (r + c * x) % group_order()
}

/// The verifier's equation: `s * g = t + c * y`.
pub open spec fn equation_holds(t: Seq<u8>, s: nat, c: nat, y: Seq<u8>, g: Seq<u8>) -> bool {
    group_mul(g, s) == group_add(t, group_mul(y, c))
}

/// Whether `(t, s)` is accepted as a proof for the statement `(g, y)` in
/// the context `(sid, pid)`.
pub open spec fn accepts(
    t: Seq<u8>,
    s: nat,
    sid: Seq<u8>,
    pid: u64,
    y: Seq<u8>,
    g: Seq<u8>,
) -> bool {
    equation_holds(t, s, proof_challenge(sid, pid, g, y, t), y, g)
}

/// Whether `(t, s)` is what an honest prover computes from the nonce `r`
/// and the secret `x` for the statement `(g, y)` in the context
/// `(sid, pid)`.
pub open spec fn made_from(
    t: Seq<u8>,
    s: nat,
    sid: Seq<u8>,
    pid: u64,
    x: nat,
    r: nat,
    y: Seq<u8>,
    g: Seq<u8>,
) -> bool {
    &&& r < group_order()
    &&& t == group_mul(g, r)
    &&& s == response(r, proof_challenge(sid, pid, g, y, t), x)
}

/// Two contexts that differ in the session id or in the party id put
/// different bytes under the hash, for one statement and one commitment.
/// Whether the challenges then differ is a matter of the hash.
pub proof fn lemma_contexts_hash_apart(
    sid1: &str,
    pid1: u64,
    sid2: &str,
    pid2: u64,
    g: Seq<u8>,
    y: Seq<u8>,
    t: Seq<u8>,
)
    requires
        sid1.spec_bytes().len() <= u64::MAX,
        sid2.spec_bytes().len() <= u64::MAX,
        is_point_encoding(g),
        is_point_encoding(y),
        is_point_encoding(t),
        sid1@ != sid2@ || pid1 != pid2,
    ensures
        transcript(sid1.spec_bytes(), pid1, seq![g, y, t]) != transcript(
            sid2.spec_bytes(),
            pid2,
            seq![g, y, t],
        ),
{
    let points = seq![g, y, t];
    if transcript(sid1.spec_bytes(), pid1, points) == transcript(sid2.spec_bytes(), pid2, points) {
        lemma_transcript_injective(sid1.spec_bytes(), pid1, points, sid2.spec_bytes(), pid2, points);
        encode_utf8_decode_utf8(sid1@);
        encode_utf8_decode_utf8(sid2@);
    }
}

/// Why a nonce serves once: two responses from one nonce and one secret
/// differ by the secret times the difference of their challenges, which
/// whoever holds both can solve for the secret.
pub proof fn lemma_reused_nonce_relates_responses(r: nat, x: nat, c1: nat, c2: nat)
    ensures
        (response(r, c1, x) + c2 * x) % group_order() == (response(r, c2, x) + c1 * x)
            % group_order(),
{
    let n = group_order() as int;
    lemma_add_mod_noop_right((c2 * x) as int, (r + c1 * x) as int, n);
    lemma_add_mod_noop_right((c1 * x) as int, (r + c2 * x) as int, n);
}

/// Proofs made from different nonces for one secret, one statement and
/// one context differ: in the commitment, or else in the response.
pub proof fn lemma_distinct_nonces_distinct_proofs(
    t1: Seq<u8>,
    s1: nat,
    r1: nat,
    t2: Seq<u8>,
    s2: nat,
    r2: nat,
    sid: Seq<u8>,
    pid: u64,
    x: nat,
    y: Seq<u8>,
    g: Seq<u8>,
)
    requires
        made_from(t1, s1, sid, pid, x, r1, y, g),
        made_from(t2, s2, sid, pid, x, r2, y, g),
        r1 != r2,
    ensures
        t1 != t2 || s1 != s2,
{
    if t1 == t2 && s1 == s2 {
        let n = group_order() as int;
        let shift = proof_challenge(sid, pid, g, y, t1) * x;
        lemma_mod_equivalence((r1 + shift) as int, (r2 + shift) as int, n);
        lemma_mod_equivalence((r2 + shift) as int, (r1 + shift) as int, n);
        if r1 < r2 {
            lemma_small_mod((r2 - r1) as nat, n as nat);
        } else {
            lemma_small_mod((r1 - r2) as nat, n as nat);
        }
    }
}

/// The number of bytes of an encoded proof.
pub const PROOF_LEN: usize = 65;

/// A proof on the wire: the commitment's 33-byte compressed encoding, then
/// the response as 32 big-endian bytes.
pub open spec fn wire_encoding(t: Seq<u8>, s: nat) -> Seq<u8> {
    t + be_bytes(s, 32)
}

/// What received bytes are read as: a commitment and a response, or the
/// first reason why they hold none.
pub open spec fn wire_decoding(bytes: Seq<u8>) -> Result<(Seq<u8>, nat), InvalidInputError> {
    if bytes.len() != 65 {
        Err(InvalidInputError::Length)
    } else if !is_point_encoding(bytes.subrange(0, 33)) {
        Err(InvalidInputError::Point)
    } else if be_value(bytes.subrange(33, 65)) >= group_order() {
        Err(InvalidInputError::Scalar)
    } else {
        Ok((bytes.subrange(0, 33), be_value(bytes.subrange(33, 65))))
    }
}

/// An encoded proof is read back as the proof that was encoded.
pub proof fn lemma_wire_round_trip(t: Seq<u8>, s: nat)
    requires
        is_point_encoding(t),
        s < group_order(),
    ensures
        wire_decoding(wire_encoding(t, s)) == Ok::<(Seq<u8>, nat), InvalidInputError>((t, s)),
{
    lemma_scalar_fits();
    lemma_be_bytes_len(s, 32);
    lemma_be_value_of_bytes(s, 32);
    let bytes = wire_encoding(t, s);
    assert(bytes.subrange(0, 33) =~= t);
    assert(bytes.subrange(33, 65) =~= be_bytes(s, 32));
}

/// Bytes that are read as a proof are the encoding of that proof: no
/// proof has two encodings.
pub proof fn lemma_wire_canonical(bytes: Seq<u8>)
    requires
        wire_decoding(bytes) is Ok,
    ensures
        wire_encoding(wire_decoding(bytes)->Ok_0.0, wire_decoding(bytes)->Ok_0.1) == bytes,
{
    let tail = bytes.subrange(33, 65);
    lemma_be_bytes_of_value(tail);
    assert(bytes =~= bytes.subrange(0, 33) + tail);
}

/// A proof: the commitment `t` and the response `s`.
#[derive(Clone, Copy, Debug)]
pub struct DLogProof {
    pub t: Point,
    pub s: Scalar,
}

impl DLogProof {
    /// Derives the challenge that binds a session id, a party id and a
    /// list of points. The same inputs always give the same scalar.
    pub fn hash_points(sid: &str, pid: u64, points: &[Point]) -> (c: Scalar)
        ensures
            c@ == challenge_value(sid.spec_bytes(), pid, encodings(points@)),
    {
        let message = transcript_bytes(sid, pid, points);
        let digest = digest_bytes(message.as_slice());
        Scalar::reduce(&digest)
    }

    /// The proof that an honest prover computes from the nonce `r`.
    ///
    /// The nonce must be fresh and uniformly random: whoever sees two
    /// proofs made from one nonce for one secret can solve for the secret.
    pub fn prove_with_nonce(
        sid: &str,
        pid: u64,
        x: Scalar,
        y: Point,
        base_point: Point,
        r: Scalar,
    ) -> (made: DLogProof)
        ensures
            made_from(made.t@, made.s@, sid.spec_bytes(), pid, x@, r@, y@, base_point@),
    {
        let t = base_point.mul(&r);
        let points = [base_point, y, t];
        let c = Self::hash_points(sid, pid, points.as_slice());
        let s = r.add(&c.mul(&x));
        proof {
            use_type_invariant(&r);
            assert(encodings(points@) =~= seq![base_point@, y@, t@]);
            lemma_add_mod_noop_right(r@ as int, (c@ * x@) as int, group_order() as int);
        }
        DLogProof { t, s }
    }

    /// Proves knowledge of `x` with `y = x * base_point`, under a nonce
    /// drawn from the thread's secure generator for this proof alone.
    /// Whether `y` is that point is not checked: where it is not, the
    /// proof does not verify.
    pub fn prove(sid: &str, pid: u64, x: Scalar, y: Point, base_point: Point) -> (made: DLogProof)
        ensures
            exists|r: nat|
                made_from(made.t@, made.s@, sid.spec_bytes(), pid, x@, r, y@, base_point@),
    {
        let r = generate_random_scalar();
        Self::prove_with_nonce(sid, pid, x, y, base_point, r)
    }

    /// Encodes the proof for the wire.
    pub fn to_bytes(&self) -> (out: Vec<u8>)
        ensures
            out@ == wire_encoding(self.t@, self.s@),
            out@.len() == 65,
    {
        let point = self.t.to_bytes();
        let scalar = self.s.to_bytes();
        let mut out: Vec<u8> = Vec::new();
        append_bytes(&mut out, point.as_slice());
        append_bytes(&mut out, scalar.as_slice());
        out
    }

    /// Reads a proof from the wire. Bytes of another length, a commitment
    /// that is no compressed point and a response at or above the group
    /// order are turned away, in that order.
    pub fn from_bytes(bytes: &[u8]) -> (r: Result<DLogProof, InvalidInputError>)
        ensures
            match wire_decoding(bytes@) {
                Ok((t, s)) => r matches Ok(read) && read.t@ == t && read.s@ == s,
                Err(e) => r matches Err(found) && found == e,
            },
    {
        if bytes.len() != PROOF_LEN {
            return Err(InvalidInputError::Length);
        }
        let t = match Point::from_bytes(slice_subrange(bytes, 0, 33)) {
            Ok(t) => t,
            Err(_) => {
                return Err(InvalidInputError::Point);
            },
        };
        let s = match Scalar::from_bytes(slice_subrange(bytes, 33, 65)) {
            Ok(s) => s,
            Err(_) => {
                return Err(InvalidInputError::Scalar);
            },
        };
        Ok(DLogProof { t, s })
    }

    /// Checks received bytes as `verify` checks a proof. Bytes that hold
    /// no proof are not accepted.
    pub fn verify_encoded(bytes: &[u8], sid: &str, pid: u64, y: Point, base_point: Point) -> (ok:
        bool)
        ensures
            ok == match wire_decoding(bytes@) {
                Ok((t, s)) => accepts(t, s, sid.spec_bytes(), pid, y@, base_point@),
                Err(_) => false,
            },
    {
        match Self::from_bytes(bytes) {
            Ok(read) => read.verify(sid, pid, y, base_point),
            Err(_) => false,
        }
    }

    /// Checks the proof against the statement `(base_point, y)` in the
    /// context `(sid, pid)`.
    ///
    /// The result is that of the verifier's equation, and nothing else.
    /// Two things follow for a proof that was made honestly for this
    /// statement, from any secret and any nonce. Made for this context, it
    /// is accepted. Made for any context, it is accepted exactly where the
    /// response it holds and the response that this context calls for give
    /// the same multiple of the base point: for a base point of full order
    /// that is where the two challenges, each times the secret, agree.
    pub fn verify(&self, sid: &str, pid: u64, y: Point, base_point: Point) -> (ok: bool)
        ensures
            ok == accepts(self.t@, self.s@, sid.spec_bytes(), pid, y@, base_point@),
            forall|x: nat, r: nat|
                #![trigger made_from(self.t@, self.s@, sid.spec_bytes(), pid, x, r, y@, base_point@)]
                x < group_order() && y@ == group_mul(base_point@, x) && made_from(
                    self.t@,
                    self.s@,
                    sid.spec_bytes(),
                    pid,
                    x,
                    r,
                    y@,
                    base_point@,
                ) ==> ok,
            forall|x: nat, r: nat, made_sid: Seq<u8>, made_pid: u64|
                #![trigger made_from(self.t@, self.s@, made_sid, made_pid, x, r, y@, base_point@)]
                x < group_order() && y@ == group_mul(base_point@, x) && made_from(
                    self.t@,
                    self.s@,
                    made_sid,
                    made_pid,
                    x,
                    r,
                    y@,
                    base_point@,
                ) ==> ok == (group_mul(base_point@, self.s@) == group_mul(
                    base_point@,
                    response(
                        r,
                        proof_challenge(sid.spec_bytes(), pid, base_point@, y@, self.t@),
                        x,
                    ),
                )),
    {
        let points = [base_point, y, self.t];
        let c = Self::hash_points(sid, pid, points.as_slice());
        let lhs = base_point.mul(&self.s);
        let scaled = y.mul(&c);
        let rhs = self.t.add(&scaled);
        let ok = lhs == rhs;
        proof {
            assert(encodings(points@) =~= seq![base_point@, y@, self.t@]);
            use_type_invariant(&base_point);
            let g = base_point@;
            let n = group_order();
            assert forall|x: nat, r: nat|
                x < n && y@ == group_mul(g, x) && r < n && self.t@ == group_mul(
                    g,
                    r,
                ) implies rhs@ == group_mul(g, #[trigger] response(r, c@, x)) by {
                assert(is_multiple(y@, g, x));
                assert(is_multiple(self.t@, g, r));
                assert(is_multiple(scaled@, g, (x * c@) % n));
                assert(is_multiple(rhs@, g, (r + (x * c@) % n) % n));
                lemma_add_mod_noop_right(r as int, (x * c@) as int, n as int);
                assert(x * c@ == c@ * x) by (nonlinear_arith);
            }
            assert forall|x: nat, r: nat, made_sid: Seq<u8>, made_pid: u64|
                x < n && y@ == group_mul(g, x) && made_from(
                    self.t@,
                    self.s@,
                    made_sid,
                    made_pid,
                    x,
                    r,
                    y@,
                    g,
                ) implies ok == (group_mul(g, self.s@) == group_mul(g, response(r, c@, x))) by {
                assert(rhs@ == group_mul(g, response(r, c@, x)));
            }
        }
        ok
    }
}

impl PartialEq for DLogProof {
    fn eq(&self, other: &DLogProof) -> (r: bool) {
        self.t == other.t && self.s == other.s
    }
}

impl vstd::std_specs::cmp::PartialEqSpecImpl for DLogProof {
    open spec fn obeys_eq_spec() -> bool {
        true
    }

    open spec fn eq_spec(&self, other: &DLogProof) -> bool {
        self.t@ == other.t@ && self.s@ == other.s@
    }
}

} // verus!
