//! The byte string that a challenge is hashed from, and the hash.
//!
//! A transcript holds the session id's bytes, the party id as eight
//! little-endian bytes, and the 33-byte encoding of each point, in that
//! order. Each of these fields is preceded by its length in bytes, again as
//! eight little-endian bytes. The lengths are what makes the layout
//! unambiguous: without them nothing would mark where the session id ends,
//! and its last bytes could pass for the party id or for a point wherever
//! lists of different lengths are hashed. With them, no two inputs share a
//! transcript (`lemma_transcript_injective`), so a change to the session
//! id, to the party id, or to the points or their order always changes the
//! bytes that are hashed.

use crate::point::Point;
use vstd::bytes::{
    lemma_auto_spec_u64_to_from_le_bytes, spec_u64_from_le_bytes, spec_u64_to_le_bytes,
    u64_to_le_bytes,
};
use vstd::prelude::*;
use vstd::string::StringSliceAdditionalSpecFns;

use sha2::Digest;

verus! {

/// The SHA-256 digest of `data`.
pub uninterp spec fn sha256_digest(data: Seq<u8>) -> Seq<u8>;

/// The encodings of a list of points.
pub open spec fn encodings(points: Seq<Point>) -> Seq<Seq<u8>> {
    points.map_values(|p: Point| p@)
}

/// One field: the number of its bytes, then the bytes.
pub open spec fn field(bytes: Seq<u8>) -> Seq<u8> {
    spec_u64_to_le_bytes(bytes.len() as u64) + bytes
}

/// The fields of all parts, one after the other.
pub open spec fn fields(parts: Seq<Seq<u8>>) -> Seq<u8>
    decreases parts.len(),
{
    if parts.len() == 0 {
        Seq::<u8>::empty()
    } else {
        field(parts.first()) + fields(parts.drop_first())
    }
}

/// Every part is short enough for its length to be written down.
pub open spec fn framable(parts: Seq<Seq<u8>>) -> bool {
    forall|i: int| 0 <= i < parts.len() ==> (#[trigger] parts[i]).len() <= u64::MAX
}

/// The parts of a transcript: the session id, the party id, the points.
pub open spec fn transcript_parts(sid: Seq<u8>, pid: u64, points: Seq<Seq<u8>>) -> Seq<Seq<u8>> {
    seq![sid, spec_u64_to_le_bytes(pid)] + points
}

/// The transcript of a session id, a party id and a list of encoded points.
pub open spec fn transcript(sid: Seq<u8>, pid: u64, points: Seq<Seq<u8>>) -> Seq<u8> {
    fields(transcript_parts(sid, pid, points))
}

/// The fields of a list followed by another are the fields of the one
/// followed by the fields of the other.
pub proof fn lemma_fields_append(a: Seq<Seq<u8>>, b: Seq<Seq<u8>>)
    ensures
        fields(a + b) == fields(a) + fields(b),
    decreases a.len(),
{
    if a.len() == 0 {
        assert(a + b =~= b);
        assert(fields(a) + fields(b) =~= fields(b));
    } else {
        lemma_fields_append(a.drop_first(), b);
        assert((a + b).drop_first() =~= a.drop_first() + b);
        assert((a + b).first() == a.first());
        assert(fields(a + b) =~= fields(a) + fields(b));
    }
}

/// Lists of parts with the same fields are the same list.
pub proof fn lemma_fields_injective(a: Seq<Seq<u8>>, b: Seq<Seq<u8>>)
    requires
        framable(a),
        framable(b),
        fields(a) == fields(b),
    ensures
        a == b,
    decreases a.len(),
{
    lemma_auto_spec_u64_to_from_le_bytes();
    if a.len() == 0 || b.len() == 0 {
        if a.len() > 0 {
            assert(fields(a).len() == field(a.first()).len() + fields(a.drop_first()).len());
            assert(field(a.first()).len() >= 8);
        }
        if b.len() > 0 {
            assert(fields(b).len() == field(b.first()).len() + fields(b.drop_first()).len());
            assert(field(b.first()).len() >= 8);
        }
        assert(a =~= b);
    } else {
        let whole = fields(a);
        let x = a.first();
        let y = b.first();
        let lx = spec_u64_to_le_bytes(x.len() as u64);
        let ly = spec_u64_to_le_bytes(y.len() as u64);
        assert(whole.subrange(0, 8) =~= lx);
        assert(whole.subrange(0, 8) =~= ly);
        assert(spec_u64_from_le_bytes(lx) == x.len() as u64);
        assert(spec_u64_from_le_bytes(ly) == y.len() as u64);
        assert(x.len() == y.len());
        let end = 8 + x.len() as int;
        assert(whole.subrange(8, end) =~= x);
        assert(whole.subrange(8, end) =~= y);
        assert(whole.subrange(end, whole.len() as int) =~= fields(a.drop_first()));
        assert(whole.subrange(end, whole.len() as int) =~= fields(b.drop_first()));
        lemma_fields_injective(a.drop_first(), b.drop_first());
        assert(a =~= seq![x] + a.drop_first());
        assert(b =~= seq![y] + b.drop_first());
    }
}

/// The transcript determines the session id's bytes, the party id and the
/// list of points: a change to any of them, a reordering of the points
/// included, changes the bytes that are hashed.
pub proof fn lemma_transcript_injective(
    sid1: Seq<u8>,
    pid1: u64,
    points1: Seq<Seq<u8>>,
    sid2: Seq<u8>,
    pid2: u64,
    points2: Seq<Seq<u8>>,
)
    requires
        sid1.len() <= u64::MAX,
        sid2.len() <= u64::MAX,
        framable(points1),
        framable(points2),
        transcript(sid1, pid1, points1) == transcript(sid2, pid2, points2),
    ensures
        sid1 == sid2,
        pid1 == pid2,
        points1 == points2,
{
    lemma_auto_spec_u64_to_from_le_bytes();
    let parts1 = transcript_parts(sid1, pid1, points1);
    let parts2 = transcript_parts(sid2, pid2, points2);
    assert(framable(parts1)) by {
        assert forall|i: int| 0 <= i < parts1.len() implies (#[trigger] parts1[i]).len()
            <= u64::MAX by {
            if i >= 2 {
                assert(parts1[i] == points1[i - 2]);
            }
        }
    }
    assert(framable(parts2)) by {
        assert forall|i: int| 0 <= i < parts2.len() implies (#[trigger] parts2[i]).len()
            <= u64::MAX by {
            if i >= 2 {
                assert(parts2[i] == points2[i - 2]);
            }
        }
    }
    lemma_fields_injective(parts1, parts2);
    assert(parts1[0] == sid1 && parts2[0] == sid2);
    assert(parts1[1] == spec_u64_to_le_bytes(pid1) && parts2[1] == spec_u64_to_le_bytes(pid2));
    assert(spec_u64_from_le_bytes(spec_u64_to_le_bytes(pid1)) == pid1);
    assert(spec_u64_from_le_bytes(spec_u64_to_le_bytes(pid2)) == pid2);
    assert(points1 =~= parts1.subrange(2, parts1.len() as int));
    assert(points2 =~= parts2.subrange(2, parts2.len() as int));
}

/// Appends `src` to `out`.
pub fn append_bytes(out: &mut Vec<u8>, src: &[u8])
    ensures
        final(out)@ == old(out)@ + src@,
{
    let n = src.len();
    let mut i: usize = 0;
    while i < n
        invariant
            n == src@.len(),
            i <= n,
            out@ == old(out)@ + src@.subrange(0, i as int),
        decreases n - i,
    {
        out.push(src[i]);
        proof {
            assert(src@.subrange(0, i + 1) =~= src@.subrange(0, i as int).push(src@[i as int]));
        }
        i += 1;
    }
    proof {
        assert(src@.subrange(0, n as int) =~= src@);
    }
}

/// Appends the field of `src` to `out`.
fn append_field(out: &mut Vec<u8>, src: &[u8])
    ensures
        final(out)@ == old(out)@ + field(src@),
{
    let length = u64_to_le_bytes(src.len() as u64);
    append_bytes(out, length.as_slice());
    append_bytes(out, src);
    proof {
        assert(out@ =~= old(out)@ + field(src@));
    }
}

/// Writes out the transcript of a session id, a party id and a list of
/// points.
pub fn transcript_bytes(sid: &str, pid: u64, points: &[Point]) -> (out: Vec<u8>)
    ensures
        out@ == transcript(sid.spec_bytes(), pid, encodings(points@)),
{
    let mut out: Vec<u8> = Vec::new();
    append_field(&mut out, sid.as_bytes());
    let party = u64_to_le_bytes(pid);
    append_field(&mut out, party.as_slice());
    let ghost head = seq![sid.spec_bytes(), spec_u64_to_le_bytes(pid)];
    proof {
        reveal_with_fuel(fields, 3);
        assert(head.drop_first() =~= seq![spec_u64_to_le_bytes(pid)]);
        assert(head.drop_first().drop_first() =~= Seq::<Seq<u8>>::empty());
        assert(out@ =~= fields(head));
        assert(points@.subrange(0, 0) =~= Seq::<Point>::empty());
        assert(head + encodings(points@.subrange(0, 0)) =~= head);
    }
    let n = points.len();
    let mut i: usize = 0;
    while i < n
        invariant
            n == points@.len(),
            i <= n,
            head == seq![sid.spec_bytes(), spec_u64_to_le_bytes(pid)],
            out@ == fields(head + encodings(points@.subrange(0, i as int))),
        decreases n - i,
    {
        let encoded = points[i].to_bytes();
        append_field(&mut out, encoded.as_slice());
        proof {
            let before = head + encodings(points@.subrange(0, i as int));
            let added = seq![points@[i as int]@];
            lemma_fields_append(before, added);
            assert(fields(added) =~= field(points@[i as int]@)) by {
                assert(added.drop_first() =~= Seq::<Seq<u8>>::empty());
                assert(fields(added.drop_first()) =~= Seq::<u8>::empty());
            }
            assert(head + encodings(points@.subrange(0, i + 1)) =~= before + added);
        }
        i += 1;
    }
    proof {
        assert(points@.subrange(0, n as int) =~= points@);
    }
    out
}

/// `sha2::Sha256::digest`: the SHA-256 digest of the whole input, which
/// is what `update` on each part in turn and `finalize` give.
#[verifier::external_body]
pub(crate) fn digest_bytes(data: &[u8]) -> (digest: [u8; 32])
    ensures
        digest@ == sha256_digest(data@),
{
    sha2::Sha256::digest(data).into()
}

} // verus!
