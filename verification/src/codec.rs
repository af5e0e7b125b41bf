//! Storage codec for response snapshots.
//!
//! A snapshot is persisted as one byte string: status code, header count,
//! then each header and the body as length-prefixed byte runs. Lengths are
//! 64-bit little-endian. Decoding is proved to invert encoding byte-for-byte,
//! which is what makes replay from storage exact.

use vstd::prelude::*;
use vstd::bytes::{
    lemma_auto_spec_u16_to_from_le_bytes, lemma_auto_spec_u64_to_from_le_bytes,
    spec_u16_from_le_bytes, spec_u16_to_le_bytes, spec_u64_from_le_bytes, spec_u64_to_le_bytes,
    u16_from_le_bytes, u16_to_le_bytes, u64_from_le_bytes, u64_to_le_bytes,
};
use vstd::slice::{slice_subrange, slice_to_vec};
use crate::response::{HeaderModel, HeaderPair, ResponseSnapshot, SnapshotModel, valid_status,
    wf_model};

verus! {

/// Upper bound that a length must stay under to fit its 64-bit field.
pub open spec fn fits_u64(n: nat) -> bool {
    n < 0x1_0000_0000_0000_0000
}

/// The views of a run of header pairs, in order.
pub open spec fn header_views(hs: Seq<HeaderPair>) -> Seq<HeaderModel> {
    Seq::new(hs.len(), |i: int| hs[i]@)
}

/// One length-prefixed byte run.
pub open spec fn spec_len_prefixed(data: Seq<u8>) -> Seq<u8> {
    spec_u64_to_le_bytes(data.len() as u64) + data
}

/// One header: name then value, each length-prefixed.
pub open spec fn spec_encode_header(h: HeaderModel) -> Seq<u8> {
    spec_len_prefixed(h.0) + spec_len_prefixed(h.1)
}

/// All headers, in order.
pub open spec fn spec_encode_headers(hs: Seq<HeaderModel>) -> Seq<u8>
    decreases hs.len(),
{
    if hs.len() == 0 {
        Seq::empty()
    } else {
        spec_encode_header(hs[0]) + spec_encode_headers(hs.drop_first())
    }
}

/// The stored form of a snapshot.
pub open spec fn spec_encode(m: SnapshotModel) -> Seq<u8> {
    spec_u16_to_le_bytes(m.status) + spec_u64_to_le_bytes(m.headers.len() as u64)
        + spec_encode_headers(m.headers) + spec_len_prefixed(m.body)
}

/// Splits one length-prefixed run off the front, if the bytes allow it.
pub open spec fn spec_take_len_prefixed(b: Seq<u8>) -> Option<(Seq<u8>, Seq<u8>)> {
    if b.len() < 8 {
        None
    } else {
        let n = spec_u64_from_le_bytes(b.take(8)) as int;
        let rest = b.skip(8);
        if rest.len() < n {
            None
        } else {
            Some((rest.take(n), rest.skip(n)))
        }
    }
}

/// Parses `n` headers off the front, returning them with the remainder.
pub open spec fn spec_decode_headers(b: Seq<u8>, n: nat) -> Option<(Seq<HeaderModel>, Seq<u8>)>
    decreases n,
{
    if n == 0 {
        Some((Seq::empty(), b))
    } else {
        match spec_take_len_prefixed(b) {
            None => None,
            Some((name, r1)) => match spec_take_len_prefixed(r1) {
                None => None,
                Some((value, r2)) => match spec_decode_headers(r2, (n - 1) as nat) {
                    None => None,
                    Some((tail, rest)) => Some((seq![(name, value)] + tail, rest)),
                },
            },
        }
    }
}

/// Parses a stored snapshot; `None` on any malformed byte string.
pub open spec fn spec_decode(b: Seq<u8>) -> Option<SnapshotModel> {
    if b.len() < 10 {
        None
    } else {
        let status = spec_u16_from_le_bytes(b.take(2));
        let r0 = b.skip(2);
        let count = spec_u64_from_le_bytes(r0.take(8));
        if !valid_status(status) {
            None
        } else {
            match spec_decode_headers(r0.skip(8), count as nat) {
                None => None,
                Some((headers, r2)) => match spec_take_len_prefixed(r2) {
                    None => None,
                    Some((body, r3)) => if r3.len() == 0 {
                        Some(SnapshotModel { status, headers, body })
                    } else {
                        None
                    },
                },
            }
        }
    }
}

proof fn lemma_take_of_len_prefixed(data: Seq<u8>, suffix: Seq<u8>)
    requires
        fits_u64(data.len()),
    ensures
        spec_take_len_prefixed(spec_len_prefixed(data) + suffix) == Some((data, suffix)),
{
    lemma_auto_spec_u64_to_from_le_bytes();
    let b = spec_len_prefixed(data) + suffix;
    assert(b.take(8) =~= spec_u64_to_le_bytes(data.len() as u64));
    assert(b.skip(8) =~= data + suffix);
    assert((data + suffix).take(data.len() as int) =~= data);
    assert((data + suffix).skip(data.len() as int) =~= suffix);
}

proof fn lemma_decode_headers_of_encode(hs: Seq<HeaderModel>, suffix: Seq<u8>)
    requires
        forall|i: int| 0 <= i < hs.len() ==> fits_u64((#[trigger] hs[i]).0.len())
            && fits_u64(hs[i].1.len()),
    ensures
        spec_decode_headers(spec_encode_headers(hs) + suffix, hs.len()) == Some((hs, suffix)),
    decreases hs.len(),
{
    if hs.len() == 0 {
        assert(spec_encode_headers(hs) + suffix =~= suffix);
    } else {
        let h = hs[0];
        let tail = hs.drop_first();
        let enc_tail = spec_encode_headers(tail) + suffix;
        let b = spec_encode_headers(hs) + suffix;
        assert(b =~= spec_len_prefixed(h.0) + (spec_len_prefixed(h.1) + enc_tail));
        lemma_take_of_len_prefixed(h.0, spec_len_prefixed(h.1) + enc_tail);
        lemma_take_of_len_prefixed(h.1, enc_tail);
        lemma_decode_headers_of_encode(tail, suffix);
        assert(seq![(h.0, h.1)] + tail =~= hs);
    }
}

/// Decoding inverts encoding: a well-formed snapshot written to storage is
/// recovered exactly.
pub proof fn lemma_codec_round_trip(m: SnapshotModel)
    requires
        wf_model(m),
    ensures
        spec_decode(spec_encode(m)) == Some(m),
{
    lemma_auto_spec_u16_to_from_le_bytes();
    lemma_auto_spec_u64_to_from_le_bytes();
    let b = spec_encode(m);
    let after_status = spec_u64_to_le_bytes(m.headers.len() as u64) + spec_encode_headers(m.headers)
        + spec_len_prefixed(m.body);
    assert(b.take(2) =~= spec_u16_to_le_bytes(m.status));
    assert(b.skip(2) =~= after_status);
    assert(after_status.take(8) =~= spec_u64_to_le_bytes(m.headers.len() as u64));
    assert(after_status.skip(8) =~= spec_encode_headers(m.headers) + spec_len_prefixed(m.body));
    lemma_decode_headers_of_encode(m.headers, spec_len_prefixed(m.body));
    lemma_take_of_len_prefixed(m.body, Seq::<u8>::empty());
    assert(spec_len_prefixed(m.body) + Seq::<u8>::empty() =~= spec_len_prefixed(m.body));
}

proof fn lemma_encode_headers_snoc(hs: Seq<HeaderModel>, h: HeaderModel)
    ensures
        spec_encode_headers(hs.push(h)) == spec_encode_headers(hs) + spec_encode_header(h),
    decreases hs.len(),
{
    if hs.len() == 0 {
        assert(hs.push(h)[0] == h);
        assert(hs.push(h).drop_first() =~= Seq::<HeaderModel>::empty());
        assert(spec_encode_headers(Seq::<HeaderModel>::empty()) == Seq::<u8>::empty());
        assert(spec_encode_headers(hs.push(h)) == spec_encode_header(h) + Seq::<u8>::empty());
        assert(spec_encode_header(h) + Seq::<u8>::empty() =~= Seq::<u8>::empty()
            + spec_encode_header(h));
        assert(spec_encode_headers(hs) == Seq::<u8>::empty());
    } else {
        assert(hs.push(h).drop_first() =~= hs.drop_first().push(h));
        lemma_encode_headers_snoc(hs.drop_first(), h);
        assert(hs.push(h)[0] == hs[0]);
        assert(spec_encode_headers(hs.push(h)) == spec_encode_header(hs[0])
            + spec_encode_headers(hs.drop_first().push(h)));
        assert(spec_encode_header(hs[0]) + (spec_encode_headers(hs.drop_first())
            + spec_encode_header(h)) =~= (spec_encode_header(hs[0])
            + spec_encode_headers(hs.drop_first())) + spec_encode_header(h));
        assert(spec_encode_headers(hs) == spec_encode_header(hs[0])
            + spec_encode_headers(hs.drop_first()));
    }
}

/// Appends `data` to `out` as one length-prefixed run.
fn push_len_prefixed(out: &mut Vec<u8>, data: &[u8])
    ensures
        final(out)@ == old(out)@ + spec_len_prefixed(data@),
{
    let len = data.len();
    let mut len_bytes = u64_to_le_bytes(len as u64);
    out.append(&mut len_bytes);
    let mut copy = slice_to_vec(data);
    out.append(&mut copy);
    proof {
        assert(out@ =~= old(out)@ + spec_len_prefixed(data@));
    }
}

/// Serializes a snapshot into its stored byte form.
pub fn encode_snapshot(s: &ResponseSnapshot) -> (r: Vec<u8>)
    requires
        s.well_formed(),
    ensures
        r@ == spec_encode(s@),
{
    let mut out = u16_to_le_bytes(s.status_code);
    let mut count_bytes = u64_to_le_bytes(s.headers.len() as u64);
    out.append(&mut count_bytes);
    let ghost prefix = spec_u16_to_le_bytes(s@.status)
        + spec_u64_to_le_bytes(s@.headers.len() as u64);
    let n = s.headers.len();
    let mut i: usize = 0;
    while i < n
        invariant
            i <= n,
            n == s.headers@.len(),
            s.well_formed(),
            out@ == prefix + spec_encode_headers(s@.headers.take(i as int)),
        decreases n - i,
    {
        let h = &s.headers[i];
        push_len_prefixed(&mut out, h.name.as_slice());
        push_len_prefixed(&mut out, h.value.as_slice());
        proof {
            assert(s@.headers.take(i as int + 1) =~= s@.headers.take(i as int).push(
                s@.headers[i as int],
            ));
            lemma_encode_headers_snoc(s@.headers.take(i as int), s@.headers[i as int]);
            assert(out@ =~= prefix + spec_encode_headers(s@.headers.take(i as int + 1)));
        }
        i = i + 1;
    }
    proof {
        assert(s@.headers.take(n as int) =~= s@.headers);
    }
    push_len_prefixed(&mut out, s.body.as_slice());
    proof {
        assert(out@ =~= spec_encode(s@));
    }
    out
}

/// Splits one length-prefixed run off the front of `b`, if the bytes allow it.
fn take_len_prefixed<'a>(b: &'a [u8]) -> (r: Option<(Vec<u8>, &'a [u8])>)
    ensures
        match r {
            Some((data, rest)) => spec_take_len_prefixed(b@) == Some((data@, rest@))
                && data@.len() + 8 <= b@.len() && rest@.len() + 8 <= b@.len(),
            None => spec_take_len_prefixed(b@) is None,
        },
{
    let total = b.len();
    if total < 8 {
        return None;
    }
    let n64 = u64_from_le_bytes(slice_subrange(b, 0, 8));
    let rest = slice_subrange(b, 8, total);
    if n64 > (total - 8) as u64 {
        return None;
    }
    let n = n64 as usize;
    let data = slice_to_vec(slice_subrange(rest, 0, n));
    let rem = slice_subrange(rest, n, total - 8);
    Some((data, rem))
}

/// Rebuilds a snapshot from its stored byte form; `None` on any malformed
/// byte string.
#[verifier::loop_isolation(false)]
pub fn decode_snapshot(bytes: &Vec<u8>) -> (r: Option<ResponseSnapshot>)
    ensures
        match r {
            Some(s) => spec_decode(bytes@) == Some(s@) && s.well_formed(),
            None => spec_decode(bytes@) is None,
        },
{
    let total = bytes.len();
    let all = bytes.as_slice();
    if total < 10 {
        return None;
    }
    let status = u16_from_le_bytes(slice_subrange(all, 0, 2));
    let r0 = slice_subrange(all, 2, total);
    let count64 = u64_from_le_bytes(slice_subrange(r0, 0, 8));
    if !(100 <= status && status < 600) {
        return None;
    }
    let mut rest = slice_subrange(r0, 8, total - 2);
    let ghost r1 = rest@;
    proof {
        assert(bytes@.take(2) =~= bytes@.subrange(0, 2));
        assert(r0@ =~= bytes@.skip(2));
        assert(r0@.take(8) =~= r0@.subrange(0, 8));
        assert(r1 =~= r0@.skip(8));
    }
    let mut headers: Vec<HeaderPair> = Vec::new();
    let mut j: u64 = 0;
    while j < count64
        invariant
            j <= count64,
            headers@.len() == j,
            rest@.len() <= bytes@.len(),
            forall|i: int| 0 <= i < headers@.len() ==> fits_u64(
                (#[trigger] headers@[i])@.0.len(),
            ) && fits_u64(headers@[i]@.1.len()),
            spec_decode_headers(r1, count64 as nat) == (match spec_decode_headers(
                rest@,
                (count64 - j) as nat,
            ) {
                Some((tail, rem)) => Some((header_views(headers@) + tail, rem)),
                None => None::<(Seq<HeaderModel>, Seq<u8>)>,
            }),
        decreases count64 - j,
    {
        let ghost rest_head = rest@;
        let name = match take_len_prefixed(rest) {
            None => {
                proof {
                    assert(spec_decode_headers(rest_head, (count64 - j) as nat) is None);
                    assert(spec_decode_headers(r1, count64 as nat) is None);
                    assert(spec_decode(bytes@) is None);
                }
                return None;
            },
            Some((data, r)) => {
                rest = r;
                data
            },
        };
        let value = match take_len_prefixed(rest) {
            None => {
                proof {
                    assert(spec_take_len_prefixed(rest_head) == Some((name@, rest@)));
                    assert(spec_decode_headers(rest_head, (count64 - j) as nat) is None);
                    assert(spec_decode_headers(r1, count64 as nat) is None);
                    assert(spec_decode(bytes@) is None);
                }
                return None;
            },
            Some((data, r)) => {
                rest = r;
                data
            },
        };
        let ghost old_headers = headers@;
        headers.push(HeaderPair { name, value });
        proof {
            assert(header_views(headers@) =~= header_views(old_headers).push(
                headers@.last()@,
            ));
            assert forall|tail: Seq<HeaderModel>|
                true implies header_views(old_headers) + (seq![headers@.last()@] + tail)
                =~= header_views(headers@) + tail by {}
        }
        j = j + 1;
    }
    proof {
        assert(header_views(headers@) + Seq::<HeaderModel>::empty() =~= header_views(headers@));
    }
    let body = match take_len_prefixed(rest) {
        None => {
            return None;
        },
        Some((data, r)) => {
            rest = r;
            data
        },
    };
    if rest.len() != 0 {
        return None;
    }
    let s = ResponseSnapshot { status_code: status, headers, body };
    proof {
        assert(s@.headers =~= header_views(s.headers@));
        assert(spec_decode(bytes@) == Some(s@));
    }
    Some(s)
}

} // verus!
