use zk_ni_proof::{generate_random_scalar, DLogProof, Point, Scalar};

use k256::elliptic_curve::group::GroupEncoding;
use k256::elliptic_curve::ops::Reduce;
use k256::elliptic_curve::PrimeField;
use sha2::Digest;

fn scalar(v: u64) -> Scalar {
    let mut bytes = [0u8; 32];
    bytes[24..].copy_from_slice(&v.to_be_bytes());
    Scalar::from_bytes(&bytes).unwrap()
}

fn outside_scalar(s: &Scalar) -> k256::Scalar {
    k256::Scalar::from_repr(s.to_bytes().into()).unwrap()
}

fn outside_point(p: &Point) -> k256::ProjectivePoint {
    k256::ProjectivePoint::from_bytes(&p.to_bytes().into()).unwrap()
}

/// The challenge as the hasher computes it part by part.
fn expected_challenge(sid: &str, pid: u64, points: &[Point]) -> [u8; 32] {
    let mut hasher = sha2::Sha256::new();
    hasher.update((sid.len() as u64).to_le_bytes());
    hasher.update(sid.as_bytes());
    hasher.update(8u64.to_le_bytes());
    hasher.update(pid.to_le_bytes());
    for point in points {
        hasher.update(33u64.to_le_bytes());
        hasher.update(point.to_bytes());
    }
    let hash = hasher.finalize();
    k256::Scalar::reduce(k256::U256::from_be_slice(&hash)).to_bytes().into()
}

#[test]
fn test_valid_proof() {
    let sid = "test_sid";
    let pid = 12345;

    let x = generate_random_scalar();
    let base_point = Point::generator();
    let y = base_point.mul(&x);

    let proof = DLogProof::prove(sid, pid, x, y, base_point);
    assert!(proof.verify(sid, pid, y, base_point), "Valid proof should pass");
}

#[test]
fn test_invalid_proof_wrong_y() {
    let sid = "test_sid";
    let pid = 12345;

    let x = generate_random_scalar();
    let base_point = Point::generator();
    let y = base_point.mul(&generate_random_scalar());

    let proof = DLogProof::prove(sid, pid, x, y, base_point);
    assert!(
        !proof.verify(sid, pid, y, base_point),
        "Proof with incorrect y should fail"
    );
}

#[test]
fn test_invalid_proof_wrong_sid() {
    let sid = "test_sid";
    let wrong_sid = "wrong_sid";
    let pid = 12345;

    let x = generate_random_scalar();
    let base_point = Point::generator();
    let y = base_point.mul(&x);

    let proof = DLogProof::prove(sid, pid, x, y, base_point);
    assert!(
        !proof.verify(wrong_sid, pid, y, base_point),
        "Proof with incorrect SID should fail"
    );
}

#[test]
fn test_invalid_proof_wrong_pid() {
    let sid = "test_sid";
    let pid = 12345;
    let wrong_pid = 54321;

    let x = generate_random_scalar();
    let base_point = Point::generator();
    let y = base_point.mul(&x);

    let proof = DLogProof::prove(sid, pid, x, y, base_point);
    assert!(
        !proof.verify(sid, wrong_pid, y, base_point),
        "Proof with incorrect PID should fail"
    );
}

#[test]
fn test_edge_case_zero_scalar() {
    let sid = "test_sid";
    let pid = 12345;

    let x = Scalar::zero();
    let base_point = Point::generator();
    let y = base_point.mul(&x);

    let proof = DLogProof::prove(sid, pid, x, y, base_point);
    assert!(proof.verify(sid, pid, y, base_point), "Proof with zero scalar should pass");
}

#[test]
fn test_edge_case_max_scalar() {
    let sid = "test_sid";
    let pid = 12345;

    let max_scalar_bytes = [0xFF; 32];
    let x = Scalar::reduce(&max_scalar_bytes);
    let base_point = Point::generator();
    let y = base_point.mul(&x);

    let proof = DLogProof::prove(sid, pid, x, y, base_point);
    assert!(proof.verify(sid, pid, y, base_point), "Proof with max scalar should pass");
}

#[test]
fn test_proof_timing() {
    let sid = "timing_test";
    let pid = 67890;

    let x = generate_random_scalar();
    let base_point = Point::generator();
    let y = base_point.mul(&x);

    let start_proof = std::time::Instant::now();
    let proof = DLogProof::prove(sid, pid, x, y, base_point);
    let proof_time = start_proof.elapsed().as_millis();
    assert!(proof_time < 500, "Proof computation should be fast");

    let start_verify = std::time::Instant::now();
    let valid = proof.verify(sid, pid, y, base_point);
    let verify_time = start_verify.elapsed().as_millis();
    assert!(verify_time < 500, "Verification computation should be fast");
    assert!(valid, "Valid proof should pass verification");
}

#[test]
fn completeness_over_many_witnesses_and_contexts() {
    let base_point = Point::generator();
    let sids = ["sid", "", "a much longer session identifier \u{1F511}", "\0"];
    let pids = [0u64, 1, 12345, u64::MAX];
    for sid in sids {
        for pid in pids {
            let x = generate_random_scalar();
            let y = base_point.mul(&x);
            let proof = DLogProof::prove(sid, pid, x, y, base_point);
            assert!(proof.verify(sid, pid, y, base_point));
        }
    }
}

#[test]
fn completeness_over_another_base_point() {
    let base_point = Point::generator().mul(&scalar(7));
    let x = generate_random_scalar();
    let y = base_point.mul(&x);
    let proof = DLogProof::prove("sid", 1, x, y, base_point);
    assert!(proof.verify("sid", 1, y, base_point));
    assert!(!proof.verify("sid", 1, y, Point::generator()));
}

#[test]
fn maximal_reduced_scalar_verifies() {
    let mut bytes = zk_ni_proof::scalar::ORDER_BYTES;
    bytes[31] -= 1;
    let x = Scalar::from_bytes(&bytes).unwrap();
    let base_point = Point::generator();
    let y = base_point.mul(&x);
    let mut negated_generator = zk_ni_proof::point::GENERATOR_BYTES;
    negated_generator[0] = 0x03;
    assert_eq!(y.to_bytes(), negated_generator);
    let proof = DLogProof::prove("sid", 1, x, y, base_point);
    assert!(proof.verify("sid", 1, y, base_point));
}

#[test]
fn zero_witness_has_the_identity_as_public_point() {
    let base_point = Point::generator();
    let y = base_point.mul(&Scalar::zero());
    assert_eq!(y.to_bytes(), [0u8; 33]);
    let proof = DLogProof::prove("sid", 1, Scalar::zero(), y, base_point);
    assert!(proof.verify("sid", 1, y, base_point));
}

#[test]
fn zero_witness_is_not_bound_to_its_context() {
    // With y the identity, the challenge multiplies nothing: s * g = t
    // holds whatever the context.
    let base_point = Point::generator();
    let y = base_point.mul(&Scalar::zero());
    let proof = DLogProof::prove("sid", 1, Scalar::zero(), y, base_point);
    assert!(proof.verify("another sid", 2, y, base_point));
}

#[test]
fn forged_pairs_fail() {
    let base_point = Point::generator();
    let x = generate_random_scalar();
    let y = base_point.mul(&x);
    for _ in 0..64 {
        let forged = DLogProof {
            t: base_point.mul(&generate_random_scalar()),
            s: generate_random_scalar(),
        };
        assert!(!forged.verify("sid", 1, y, base_point));
    }
}

#[test]
fn proofs_for_another_witness_fail() {
    let base_point = Point::generator();
    for _ in 0..16 {
        let x = generate_random_scalar();
        let other = generate_random_scalar();
        let y = base_point.mul(&x);
        let proof = DLogProof::prove("sid", 1, other, y, base_point);
        assert_eq!(proof.verify("sid", 1, y, base_point), x == other);
    }
}

#[test]
fn two_proofs_differ_and_both_verify() {
    let base_point = Point::generator();
    let x = generate_random_scalar();
    let y = base_point.mul(&x);
    let first = DLogProof::prove("sid", 1, x, y, base_point);
    let second = DLogProof::prove("sid", 1, x, y, base_point);
    assert_ne!(first.t, second.t);
    assert_ne!(first.s, second.s);
    assert_ne!(first, second);
    assert!(first.verify("sid", 1, y, base_point));
    assert!(second.verify("sid", 1, y, base_point));
}

#[test]
fn random_scalars_differ() {
    let a = generate_random_scalar();
    let b = generate_random_scalar();
    assert_ne!(a, b);
    assert!(Scalar::from_bytes(&a.to_bytes()).is_ok());
}

#[test]
fn challenge_is_deterministic() {
    let g = Point::generator();
    let points = [g, g.mul(&scalar(2)), g.mul(&scalar(3))];
    let first = DLogProof::hash_points("sid", 1, &points);
    let second = DLogProof::hash_points("sid", 1, &points);
    assert_eq!(first, second);
}

#[test]
fn challenge_has_its_known_value() {
    let g = Point::generator();
    let points = [g, g.mul(&scalar(2)), g.mul(&scalar(3))];
    let c = DLogProof::hash_points("sid", 1, &points);
    let expected: [u8; 32] = [
        0x36, 0xe5, 0x6b, 0x09, 0xf1, 0x0f, 0x49, 0x11, 0x0f, 0x86, 0x96, 0xef, 0xed, 0x41, 0x9d,
        0x86, 0xdc, 0x5d, 0x18, 0xfc, 0x0c, 0x83, 0x9d, 0xb2, 0x19, 0x62, 0x5b, 0xaf, 0x8d, 0x1d,
        0x71, 0x22,
    ];
    assert_eq!(c.to_bytes(), expected);
}

#[test]
fn challenge_is_what_hashing_part_by_part_gives() {
    let g = Point::generator();
    let lists: [&[Point]; 4] = [
        &[],
        &[g],
        &[g, g.mul(&scalar(2)), g.mul(&scalar(3))],
        &[g.mul(&Scalar::zero()), g, g, g.mul(&scalar(7))],
    ];
    for points in lists {
        for (sid, pid) in [("", 0u64), ("sid", 1), ("test_sid", 12345), ("s", u64::MAX)] {
            let c = DLogProof::hash_points(sid, pid, points);
            assert_eq!(c.to_bytes(), expected_challenge(sid, pid, points));
        }
    }
}

#[test]
fn transcript_has_its_known_bytes() {
    let g = Point::generator();
    let points = [g, g.mul(&scalar(2)), g.mul(&scalar(3))];
    let bytes = zk_ni_proof::transcript::transcript_bytes("sid", 1, &points);
    let mut expected: Vec<u8> = Vec::new();
    expected.extend_from_slice(&[3, 0, 0, 0, 0, 0, 0, 0]);
    expected.extend_from_slice(b"sid");
    expected.extend_from_slice(&[8, 0, 0, 0, 0, 0, 0, 0]);
    expected.extend_from_slice(&[1, 0, 0, 0, 0, 0, 0, 0]);
    for point in points {
        expected.extend_from_slice(&[33, 0, 0, 0, 0, 0, 0, 0]);
        expected.extend_from_slice(&point.to_bytes());
    }
    assert_eq!(bytes, expected);
    assert_eq!(bytes.len(), 8 + 3 + 8 + 8 + 3 * (8 + 33));
}

#[test]
fn transcript_of_nothing_is_two_fields() {
    let bytes = zk_ni_proof::transcript::transcript_bytes("", 0x0102_0304_0506_0708, &[]);
    assert_eq!(
        bytes,
        [0, 0, 0, 0, 0, 0, 0, 0, 8, 0, 0, 0, 0, 0, 0, 0, 8, 7, 6, 5, 4, 3, 2, 1]
    );
}

#[test]
fn session_id_does_not_run_into_what_follows() {
    // Without the lengths, these two inputs would lay out the same bytes:
    // "a", the party id 1 and the identity's 33 zero bytes.
    let g = Point::generator();
    let identity = g.mul(&Scalar::zero());
    let mut long_sid = String::from("a\u{1}");
    for _ in 0..32 {
        long_sid.push('\0');
    }
    let with_point = DLogProof::hash_points("a", 1, &[identity]);
    let without = DLogProof::hash_points(&long_sid, 0, &[]);
    assert_ne!(with_point, without);
    assert_ne!(
        zk_ni_proof::transcript::transcript_bytes("a", 1, &[identity]),
        zk_ni_proof::transcript::transcript_bytes(&long_sid, 0, &[])
    );
}

#[test]
fn challenge_changes_with_the_order_of_points() {
    let g = Point::generator();
    let y = g.mul(&scalar(2));
    let t = g.mul(&scalar(3));
    let c = DLogProof::hash_points("sid", 1, &[g, y, t]);
    assert_ne!(c, DLogProof::hash_points("sid", 1, &[y, g, t]));
    assert_ne!(c, DLogProof::hash_points("sid", 1, &[g, t, y]));
    assert_ne!(c, DLogProof::hash_points("sid", 1, &[t, y, g]));
}

#[test]
fn challenge_changes_with_the_context() {
    let g = Point::generator();
    let points = [g, g.mul(&scalar(2)), g.mul(&scalar(3))];
    let c = DLogProof::hash_points("sid", 1, &points);
    assert_ne!(c, DLogProof::hash_points("sie", 1, &points));
    assert_ne!(c, DLogProof::hash_points("sid", 2, &points));
    assert_ne!(c, DLogProof::hash_points("sid", 1 << 56, &points));
    assert_ne!(c, DLogProof::hash_points("", 1, &points));
}

#[test]
fn proof_from_a_nonce_is_commitment_and_response() {
    let g = Point::generator();
    let x = scalar(5);
    let r = scalar(11);
    let y = g.mul(&x);
    let proof = DLogProof::prove_with_nonce("sid", 1, x, y, g, r);

    // t = r * g
    assert_eq!(proof.t, g.mul(&r));
    let eleven_g: [u8; 33] = outside_point(&g.mul(&scalar(11))).to_bytes().into();
    assert_eq!(proof.t.to_bytes(), eleven_g);

    // s = r + c * x
    let c = DLogProof::hash_points("sid", 1, &[g, y, proof.t]);
    assert_eq!(proof.s, r.add(&c.mul(&x)));
    let s: [u8; 32] = (outside_scalar(&r) + outside_scalar(&c) * outside_scalar(&x))
        .to_bytes()
        .into();
    assert_eq!(proof.s.to_bytes(), s);

    assert!(proof.verify("sid", 1, y, g));
}

#[test]
fn proof_from_a_nonce_is_deterministic() {
    let g = Point::generator();
    let x = scalar(5);
    let y = g.mul(&x);
    let first = DLogProof::prove_with_nonce("sid", 1, x, y, g, scalar(11));
    let second = DLogProof::prove_with_nonce("sid", 1, x, y, g, scalar(11));
    assert_eq!(first, second);
    let third = DLogProof::prove_with_nonce("sid", 1, x, y, g, scalar(12));
    assert_ne!(first, third);
}

#[test]
fn zero_nonce_commits_to_the_identity_and_still_verifies() {
    let g = Point::generator();
    let x = scalar(5);
    let y = g.mul(&x);
    let proof = DLogProof::prove_with_nonce("sid", 1, x, y, g, Scalar::zero());
    assert_eq!(proof.t.to_bytes(), [0u8; 33]);
    assert!(proof.verify("sid", 1, y, g));
}

#[test]
fn verification_is_the_equation() {
    let g = Point::generator();
    let y = g.mul(&scalar(5));
    for (t, s) in [(scalar(3), scalar(4)), (scalar(0), scalar(0)), (scalar(9), scalar(1))] {
        let proof = DLogProof { t: g.mul(&t), s };
        let c = DLogProof::hash_points("sid", 1, &[g, y, proof.t]);
        let lhs = outside_point(&g) * outside_scalar(&proof.s);
        let rhs = outside_point(&proof.t) + outside_point(&y) * outside_scalar(&c);
        assert_eq!(proof.verify("sid", 1, y, g), lhs == rhs);
    }
}

#[test]
fn a_reused_nonce_gives_the_secret_away() {
    let g = Point::generator();
    let x = generate_random_scalar();
    let y = g.mul(&x);
    let r = generate_random_scalar();
    let first = DLogProof::prove_with_nonce("sid", 1, x, y, g, r);
    let second = DLogProof::prove_with_nonce("sid", 2, x, y, g, r);
    assert_eq!(first.t, second.t);
    assert_ne!(first.s, second.s);

    // s1 - s2 = (c1 - c2) * x
    let c1 = outside_scalar(&DLogProof::hash_points("sid", 1, &[g, y, first.t]));
    let c2 = outside_scalar(&DLogProof::hash_points("sid", 2, &[g, y, second.t]));
    let difference = outside_scalar(&first.s) - outside_scalar(&second.s);
    assert_eq!(difference, (c1 - c2) * outside_scalar(&x));
    let recovered = difference * (c1 - c2).invert().unwrap();
    assert_eq!(recovered, outside_scalar(&x));

    // s1 + c2 * x = s2 + c1 * x
    let c1 = DLogProof::hash_points("sid", 1, &[g, y, first.t]);
    let c2 = DLogProof::hash_points("sid", 2, &[g, y, second.t]);
    assert_eq!(first.s.add(&c2.mul(&x)), second.s.add(&c1.mul(&x)));
}

#[test]
fn a_proof_under_another_context_fails_with_a_secret_that_is_not_zero() {
    let g = Point::generator();
    let x = scalar(5);
    let y = g.mul(&x);
    let proof = DLogProof::prove_with_nonce("sid", 1, x, y, g, scalar(11));
    assert!(proof.verify("sid", 1, y, g));
    for (sid, pid) in [("sid", 2u64), ("sie", 1), ("", 1), ("sid", 0), ("sid\0", 1)] {
        assert!(!proof.verify(sid, pid, y, g));
        // The response that the other context calls for is another one.
        let other = DLogProof::prove_with_nonce(sid, pid, x, y, g, scalar(11));
        assert_eq!(other.t, proof.t);
        assert_ne!(g.mul(&other.s), g.mul(&proof.s));
        assert!(other.verify(sid, pid, y, g));
    }
}
