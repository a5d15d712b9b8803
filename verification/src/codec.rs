//! Byte framing of a [`ResponseSnapshot`] for durable storage: status code,
//! header count, length-prefixed header names and values, then the body as
//! the remainder. Decoding is proved to invert encoding, so a snapshot read
//! back from the store is byte-identical to the one committed.

use vstd::prelude::*;

use crate::snapshot::HeaderPair;
use crate::snapshot::ResponseSnapshot;
use crate::snapshot::SnapshotModel;

verus! {

/// Big-endian bytes of a 16-bit status code.
pub open spec fn be16(n: u16) -> Seq<u8> {
    seq![(n >> 8) as u8, n as u8]
}

/// The status code read back from two big-endian bytes.
pub open spec fn be16_val(s: Seq<u8>) -> u16
    recommends
        s.len() == 2,
{
    (s[0] as u16) << 8 | (s[1] as u16)
}

/// Big-endian bytes of a 64-bit length.
pub open spec fn be64(n: u64) -> Seq<u8> {
    seq![
        (n >> 56) as u8,
        (n >> 48) as u8,
        (n >> 40) as u8,
        (n >> 32) as u8,
        (n >> 24) as u8,
        (n >> 16) as u8,
        (n >> 8) as u8,
        n as u8,
    ]
}

/// The length read back from eight big-endian bytes.
pub open spec fn be64_val(s: Seq<u8>) -> u64
    recommends
        s.len() == 8,
{
    (s[0] as u64) << 56 | (s[1] as u64) << 48 | (s[2] as u64) << 40 | (s[3] as u64) << 32 | (
    s[4] as u64) << 24 | (s[5] as u64) << 16 | (s[6] as u64) << 8 | (s[7] as u64)
}

/// One encoded header: length-prefixed name, then length-prefixed value.
pub open spec fn enc_header(h: (Seq<u8>, Seq<u8>)) -> Seq<u8> {
    be64(h.0.len() as u64) + h.0 + be64(h.1.len() as u64) + h.1
}

/// The encoded header list, in order.
pub open spec fn enc_headers(hs: Seq<(Seq<u8>, Seq<u8>)>) -> Seq<u8>
    decreases hs.len(),
{
    if hs.len() == 0 {
        Seq::empty()
    } else {
        enc_header(hs.first()) + enc_headers(hs.drop_first())
    }
}

/// The full encoding: status, header count, headers, body.
pub open spec fn spec_encode(m: SnapshotModel) -> Seq<u8> {
    be16(m.status) + be64(m.headers.len() as u64) + enc_headers(m.headers) + m.body
}

/// A model whose lengths fit the length prefixes. Every snapshot held in
/// memory satisfies this.
pub open spec fn wf_model(m: SnapshotModel) -> bool {
    &&& m.headers.len() <= u64::MAX
    &&& forall|i: int|
        0 <= i < m.headers.len() ==> m.headers[i].0.len() <= u64::MAX && m.headers[i].1.len()
            <= u64::MAX
}

/// Decodes `n` headers from the front of `b`, returning them with the
/// remaining bytes, or nothing if `b` is not shaped that way.
pub open spec fn dec_headers(b: Seq<u8>, n: nat) -> Option<
    (Seq<(Seq<u8>, Seq<u8>)>, Seq<u8>),
>
    decreases n,
{
    if n == 0 {
        Some((Seq::empty(), b))
    } else if b.len() < 8 {
        None
    } else {
        let nl = be64_val(b.subrange(0, 8)) as int;
        if b.len() - 8 < nl {
            None
        } else {
            let name = b.subrange(8, 8 + nl);
            let b1 = b.skip(8 + nl);
            if b1.len() < 8 {
                None
            } else {
                let vl = be64_val(b1.subrange(0, 8)) as int;
                if b1.len() - 8 < vl {
                    None
                } else {
                    let value = b1.subrange(8, 8 + vl);
                    let b2 = b1.skip(8 + vl);
                    match dec_headers(b2, (n - 1) as nat) {
                        Some((rest, tail)) => Some((seq![(name, value)] + rest, tail)),
                        None => None,
                    }
                }
            }
        }
    }
}

/// The full decoding: the model whose encoding `b` is, if any.
pub open spec fn spec_decode(b: Seq<u8>) -> Option<SnapshotModel> {
    if b.len() < 10 {
        None
    } else {
        let status = be16_val(b.subrange(0, 2));
        let n = be64_val(b.subrange(2, 10));
        match dec_headers(b.skip(10), n as nat) {
            Some((hs, body)) => Some(SnapshotModel { status, headers: hs, body }),
            None => None,
        }
    }
}

proof fn lemma_be16_roundtrip(n: u16)
    ensures
        be16_val(be16(n)) == n,
{
    assert(((((n >> 8) as u8) as u16) << 8 | ((n as u8) as u16)) == n) by (bit_vector);
}

proof fn lemma_be64_roundtrip(n: u64)
    ensures
        be64_val(be64(n)) == n,
{
    assert(((((n >> 56) as u8) as u64) << 56 | (((n >> 48) as u8) as u64) << 48 | (((n
        >> 40) as u8) as u64) << 40 | (((n >> 32) as u8) as u64) << 32 | (((n >> 24) as u8) as u64)
        << 24 | (((n >> 16) as u8) as u64) << 16 | (((n >> 8) as u8) as u64) << 8 | ((
    n as u8) as u64)) == n) by (bit_vector);
}

proof fn lemma_enc_headers_push(s: Seq<(Seq<u8>, Seq<u8>)>, x: (Seq<u8>, Seq<u8>))
    ensures
        enc_headers(s.push(x)) == enc_headers(s) + enc_header(x),
    decreases s.len(),
{
    if s.len() == 0 {
        assert(s.push(x).first() == x);
        assert(s.push(x).drop_first() =~= Seq::<(Seq<u8>, Seq<u8>)>::empty());
        assert(enc_headers(s.push(x).drop_first()) == Seq::<u8>::empty());
        assert(enc_header(x) + Seq::<u8>::empty() =~= enc_header(x));
        assert(enc_headers(s) + enc_header(x) =~= enc_header(x));
    } else {
        lemma_enc_headers_push(s.drop_first(), x);
        assert(s.push(x).drop_first() =~= s.drop_first().push(x));
        assert(s.push(x).first() == s.first());
        assert(enc_header(s.first()) + (enc_headers(s.drop_first()) + enc_header(x)) =~= (
        enc_header(s.first()) + enc_headers(s.drop_first())) + enc_header(x));
    }
}

#[verifier::rlimit(100)]
proof fn lemma_dec_enc_headers(hs: Seq<(Seq<u8>, Seq<u8>)>, tail: Seq<u8>)
    requires
        forall|i: int|
            0 <= i < hs.len() ==> hs[i].0.len() <= u64::MAX && hs[i].1.len() <= u64::MAX,
    ensures
        dec_headers(enc_headers(hs) + tail, hs.len()) == Some((hs, tail)),
    decreases hs.len(),
{
    if hs.len() == 0 {
        assert(enc_headers(hs) + tail =~= tail);
    } else {
        let h = hs.first();
        let name = h.0;
        let value = h.1;
        let b = enc_headers(hs) + tail;
        let nl = name.len() as int;
        let vl = value.len() as int;
        lemma_be64_roundtrip(name.len() as u64);
        lemma_be64_roundtrip(value.len() as u64);
        assert(b =~= be64(name.len() as u64) + name + be64(value.len() as u64) + value + (
        enc_headers(hs.drop_first()) + tail));
        assert(b.len() >= 8);
        assert(b.subrange(0, 8) =~= be64(name.len() as u64));
        assert(be64_val(b.subrange(0, 8)) as int == nl);
        assert(b.len() - 8 >= nl);
        assert(b.subrange(8, 8 + nl) =~= name);
        let b1 = b.skip(8 + nl);
        assert(b1 =~= be64(value.len() as u64) + value + (enc_headers(hs.drop_first()) + tail));
        assert(b1.len() >= 8);
        assert(b1.subrange(0, 8) =~= be64(value.len() as u64));
        assert(be64_val(b1.subrange(0, 8)) as int == vl);
        assert(b1.len() - 8 >= vl);
        assert(b1.subrange(8, 8 + vl) =~= value);
        let b2 = b1.skip(8 + vl);
        assert(b2 =~= enc_headers(hs.drop_first()) + tail);
        lemma_dec_enc_headers(hs.drop_first(), tail);
        assert(seq![(name, value)] + hs.drop_first() =~= hs);
    }
}

/// Decoding inverts encoding: a committed snapshot read back is exactly the
/// snapshot that was stored.
pub proof fn lemma_round_trip(m: SnapshotModel)
    requires
        wf_model(m),
    ensures
        spec_decode(spec_encode(m)) == Some(m),
{
    let b = spec_encode(m);
    lemma_be16_roundtrip(m.status);
    lemma_be64_roundtrip(m.headers.len() as u64);
    assert(b.subrange(0, 2) =~= be16(m.status));
    assert(b.subrange(2, 10) =~= be64(m.headers.len() as u64));
    assert(b.skip(10) =~= enc_headers(m.headers) + m.body);
    lemma_dec_enc_headers(m.headers, m.body);
    assert(spec_decode(b)->Some_0 =~= m);
}

/// The encoding names its snapshot uniquely: equal encodings mean equal
/// snapshots.
pub proof fn lemma_encode_injective(a: SnapshotModel, b: SnapshotModel)
    requires
        wf_model(a),
        wf_model(b),
        spec_encode(a) == spec_encode(b),
    ensures
        a == b,
{
    lemma_round_trip(a);
    lemma_round_trip(b);
}

fn push_be64(out: &mut Vec<u8>, n: u64)
    ensures
        final(out)@ == old(out)@ + be64(n),
{
    out.push(#[verifier::truncate] ((n >> 56) as u8));
    out.push(#[verifier::truncate] ((n >> 48) as u8));
    out.push(#[verifier::truncate] ((n >> 40) as u8));
    out.push(#[verifier::truncate] ((n >> 32) as u8));
    out.push(#[verifier::truncate] ((n >> 24) as u8));
    out.push(#[verifier::truncate] ((n >> 16) as u8));
    out.push(#[verifier::truncate] ((n >> 8) as u8));
    out.push(#[verifier::truncate] (n as u8));
    proof {
        assert(out@ =~= old(out)@ + be64(n));
    }
}

fn push_bytes(out: &mut Vec<u8>, b: &Vec<u8>)
    ensures
        final(out)@ == old(out)@ + b@,
{
    let mut j: usize = 0;
    while j < b.len()
        invariant
            j <= b@.len(),
            out@ == old(out)@ + b@.subrange(0, j as int),
        decreases b@.len() - j,
    {
        out.push(b[j]);
        j = j + 1;
        proof {
            assert(out@ =~= old(out)@ + b@.subrange(0, j as int));
        }
    }
    proof {
        assert(out@ =~= old(out)@ + b@);
    }
}

fn read_be64(b: &Vec<u8>, pos: usize) -> (r: u64)
    requires
        pos + 8 <= b@.len(),
    ensures
        r == be64_val(b@.subrange(pos as int, pos as int + 8)),
{
    let blen: usize = b.len();
    (b[pos] as u64) << 56 | (b[pos + 1] as u64) << 48 | (b[pos + 2] as u64) << 40 | (b[pos
        + 3] as u64) << 32 | (b[pos + 4] as u64) << 24 | (b[pos + 5] as u64) << 16 | (b[pos
        + 6] as u64) << 8 | (b[pos + 7] as u64)
}

fn copy_range(b: &Vec<u8>, pos: usize, len: usize) -> (r: Vec<u8>)
    requires
        pos + len <= b@.len(),
    ensures
        r@ == b@.subrange(pos as int, pos as int + len as int),
{
    let blen: usize = b.len();
    let mut r: Vec<u8> = Vec::new();
    let mut j: usize = 0;
    while j < len
        invariant
            b@.len() == blen,
            pos + len <= b@.len(),
            j <= len,
            r@ == b@.subrange(pos as int, pos as int + j as int),
        decreases len - j,
    {
        r.push(b[pos + j]);
        j = j + 1;
        proof {
            assert(r@ =~= b@.subrange(pos as int, pos as int + j as int));
        }
    }
    r
}

/// The header models of a header vector, in order.
pub open spec fn hdr_views(v: Seq<HeaderPair>) -> Seq<(Seq<u8>, Seq<u8>)> {
    Seq::new(v.len(), |i: int| v[i]@)
}

spec fn dec_combine(done: Seq<(Seq<u8>, Seq<u8>)>, rest: Seq<u8>, n: nat) -> Option<
    (Seq<(Seq<u8>, Seq<u8>)>, Seq<u8>),
> {
    match dec_headers(rest, n) {
        Some((hs, tail)) => Some((done + hs, tail)),
        None => None,
    }
}

impl ResponseSnapshot {
    /// Encodes the snapshot for durable storage.
    pub fn to_bytes(&self) -> (r: Vec<u8>)
        ensures
            r@ == spec_encode(self@),
    {
        let ghost hv = self@.headers;
        let mut out: Vec<u8> = Vec::new();
        out.push(#[verifier::truncate] ((self.status >> 8) as u8));
        out.push(#[verifier::truncate] (self.status as u8));
        proof {
            assert(out@ =~= be16(self@.status));
        }
        push_be64(&mut out, self.headers.len() as u64);
        let ghost prefix = be16(self@.status) + be64(hv.len() as u64);
        proof {
            assert(out@ =~= prefix + enc_headers(hv.take(0)));
        }
        let mut i: usize = 0;
        while i < self.headers.len()
            invariant
                i <= self.headers@.len(),
                hv == self@.headers,
                prefix == be16(self@.status) + be64(hv.len() as u64),
                out@ == prefix + enc_headers(hv.take(i as int)),
            decreases self.headers@.len() - i,
        {
            let h = &self.headers[i];
            push_be64(&mut out, h.name.len() as u64);
            push_bytes(&mut out, &h.name);
            push_be64(&mut out, h.value.len() as u64);
            push_bytes(&mut out, &h.value);
            proof {
                lemma_enc_headers_push(hv.take(i as int), hv[i as int]);
                assert(hv.take(i as int).push(hv[i as int]) =~= hv.take(i + 1));
                assert(out@ =~= prefix + enc_headers(hv.take(i + 1)));
            }
            i = i + 1;
        }
        push_bytes(&mut out, &self.body);
        proof {
            assert(hv.take(hv.len() as int) =~= hv);
            assert(out@ =~= spec_encode(self@));
        }
        out
    }

    /// Decodes a stored snapshot, succeeding exactly on well-formed
    /// encodings and returning the snapshot they encode.
    pub fn from_bytes(b: &Vec<u8>) -> (r: Option<ResponseSnapshot>)
        ensures
            r is Some <==> spec_decode(b@) is Some,
            r matches Some(s) ==> Some(s@) == spec_decode(b@),
    {
        if b.len() < 10 {
            return None;
        }
        let status: u16 = (b[0] as u16) << 8 | (b[1] as u16);
        proof {
            assert(b@.subrange(0, 2)[0] == b@[0] && b@.subrange(0, 2)[1] == b@[1]);
            assert(status == be16_val(b@.subrange(0, 2)));
        }
        let count: u64 = read_be64(b, 2);
        let mut headers: Vec<HeaderPair> = Vec::new();
        let mut pos: usize = 10;
        let mut i: u64 = 0;
        proof {
            let d = dec_headers(b@.skip(10), count as nat);
            if d is Some {
                assert(Seq::<(Seq<u8>, Seq<u8>)>::empty() + d->Some_0.0 =~= d->Some_0.0);
            }
            assert(dec_headers(b@.skip(10), count as nat) == dec_combine(
                hdr_views(headers@),
                b@.skip(10),
                count as nat,
            ));
        }
        while i < count
            invariant
                b@.len() >= 10,
                10 <= pos <= b@.len(),
                i <= count,
                headers@.len() == i,
                status == be16_val(b@.subrange(0, 2)),
                count == be64_val(b@.subrange(2, 10)),
                dec_headers(b@.skip(10), count as nat) == dec_combine(
                    hdr_views(headers@),
                    b@.skip(pos as int),
                    (count - i) as nat,
                ),
            decreases count - i,
        {
            let ghost cur = b@.skip(pos as int);
            let ghost m = (count - i) as nat;
            if b.len() - pos < 8 {
                proof {
                    assert(dec_headers(cur, m) is None);
                }
                return None;
            }
            let nl: u64 = read_be64(b, pos);
            proof {
                assert(cur.subrange(0, 8) =~= b@.subrange(pos as int, pos as int + 8));
            }
            let rem1: usize = b.len() - pos - 8;
            if (rem1 as u64) < nl {
                proof {
                    assert(dec_headers(cur, m) is None);
                }
                return None;
            }
            let nlu: usize = nl as usize;
            let name = copy_range(b, pos + 8, nlu);
            let pos1: usize = pos + 8 + nlu;
            let ghost cur1 = b@.skip(pos1 as int);
            proof {
                assert(name@ =~= cur.subrange(8, 8 + nl as int));
                assert(cur1 =~= cur.skip(8 + nl as int));
            }
            if b.len() - pos1 < 8 {
                proof {
                    assert(dec_headers(cur, m) is None);
                }
                return None;
            }
            let vl: u64 = read_be64(b, pos1);
            proof {
                assert(cur1.subrange(0, 8) =~= b@.subrange(pos1 as int, pos1 as int + 8));
            }
            let rem2: usize = b.len() - pos1 - 8;
            if (rem2 as u64) < vl {
                proof {
                    assert(dec_headers(cur, m) is None);
                }
                return None;
            }
            let vlu: usize = vl as usize;
            let value = copy_range(b, pos1 + 8, vlu);
            let pos2: usize = pos1 + 8 + vlu;
            let ghost cur2 = b@.skip(pos2 as int);
            proof {
                assert(value@ =~= cur1.subrange(8, 8 + vl as int));
                assert(cur2 =~= cur1.skip(8 + vl as int));
            }
            let ghost old_headers = headers@;
            headers.push(HeaderPair { name, value });
            proof {
                assert(dec_headers(cur, m) == match dec_headers(cur2, (m - 1) as nat) {
                    Some((rest, tail)) => Some((seq![(name@, value@)] + rest, tail)),
                    None => None,
                });
                assert(hdr_views(headers@) =~= hdr_views(old_headers) + seq![(name@, value@)]);
                let d2 = dec_headers(cur2, (m - 1) as nat);
                if d2 is Some {
                    assert((hdr_views(old_headers) + seq![(name@, value@)]) + d2->Some_0.0 =~=
                        hdr_views(old_headers) + (seq![(name@, value@)] + d2->Some_0.0));
                }
            }
            pos = pos2;
            i = i + 1;
        }
        let body = copy_range(b, pos, b.len() - pos);
        let r = ResponseSnapshot { status, headers, body };
        proof {
            assert(dec_headers(b@.skip(pos as int), 0) == Some(
                (Seq::<(Seq<u8>, Seq<u8>)>::empty(), b@.skip(pos as int)),
            ));
            assert(hdr_views(headers@) + Seq::<(Seq<u8>, Seq<u8>)>::empty() =~= hdr_views(
                headers@,
            ));
            assert(body@ =~= b@.skip(pos as int));
            assert(r@.headers =~= hdr_views(headers@));
            assert(spec_decode(b@)->Some_0 =~= r@);
        }
        Some(r)
    }
}

} // verus!
