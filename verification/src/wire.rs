//! The flat binary container format.
//!
//! Every handshake record is laid out as the concatenation, in declared field
//! order, of primitive fields (fixed-width little-endian integers, a one-byte
//! presence flag for optional fields) and length-prefixed byte blobs.  The
//! serializers below are exact: each one appends precisely the bytes that its
//! `spec_ser_*` function describes, and each reader accepts a prefix of the
//! input if and only if it is such an encoding.

use vstd::prelude::*;
use vstd::slice::{slice_subrange, slice_to_vec};
use vstd::string::StrSliceExecFns;
use vstd::utf8::*;

use crate::error::Error;

verus! {

/// The little-endian bytes of a 32-bit length or integer field.
pub open spec fn spec_ser_u32(x: u32) -> Seq<u8> {
    seq![
        (x & 0xff) as u8,
        ((x >> 8) & 0xff) as u8,
        ((x >> 16) & 0xff) as u8,
        ((x >> 24) & 0xff) as u8,
    ]
}

/// The little-endian bytes of a 64-bit integer field.
pub open spec fn spec_ser_u64(x: u64) -> Seq<u8> {
    seq![
        (x & 0xff) as u8,
        ((x >> 8) & 0xff) as u8,
        ((x >> 16) & 0xff) as u8,
        ((x >> 24) & 0xff) as u8,
        ((x >> 32) & 0xff) as u8,
        ((x >> 40) & 0xff) as u8,
        ((x >> 48) & 0xff) as u8,
        ((x >> 56) & 0xff) as u8,
    ]
}

/// A blob fits the wire format when its length fits the 32-bit prefix.
pub open spec fn bytes_wf(b: Seq<u8>) -> bool {
    b.len() <= u32::MAX
}

/// A length-prefixed byte blob.
pub open spec fn spec_ser_bytes(b: Seq<u8>) -> Seq<u8> {
    spec_ser_u32(b.len() as u32) + b
}

/// `p` occurs in `s` exactly at offset `pos`.
pub open spec fn prefix_at(s: Seq<u8>, pos: int, p: Seq<u8>) -> bool {
    &&& 0 <= pos
    &&& pos + p.len() <= s.len()
    &&& s.subrange(pos, pos + p.len()) == p
}

/// A concatenation sits at `pos` exactly when its parts sit at consecutive
/// offsets.
pub proof fn lemma_prefix_at_concat(s: Seq<u8>, pos: int, p1: Seq<u8>, p2: Seq<u8>)
    ensures
        prefix_at(s, pos, p1 + p2) <==> (prefix_at(s, pos, p1) && prefix_at(
            s,
            pos + p1.len(),
            p2,
        )),
{
    if prefix_at(s, pos, p1 + p2) {
        let w = s.subrange(pos, pos + p1.len() + p2.len());
        assert(w == p1 + p2);
        assert forall|i: int| 0 <= i < p1.len() implies s.subrange(pos, pos + p1.len())[i]
            == p1[i] by {
            assert(w[i] == s[pos + i]);
            assert((p1 + p2)[i] == p1[i]);
        }
        assert(s.subrange(pos, pos + p1.len()) =~= p1);
        assert forall|i: int| 0 <= i < p2.len() implies s.subrange(
            pos + p1.len(),
            pos + p1.len() + p2.len(),
        )[i] == p2[i] by {
            assert(w[p1.len() + i] == s[pos + p1.len() + i]);
            assert((p1 + p2)[p1.len() + i] == p2[i]);
        }
        assert(s.subrange(pos + p1.len(), pos + p1.len() + p2.len()) =~= p2);
    }
    if prefix_at(s, pos, p1) && prefix_at(s, pos + p1.len(), p2) {
        assert(s.subrange(pos, pos + p1.len() + p2.len()) =~= p1 + p2);
    }
}

/// Two 32-bit fields with the same bytes hold the same value.
pub proof fn lemma_ser_u32_injective(x: u32, y: u32)
    requires
        spec_ser_u32(x) == spec_ser_u32(y),
    ensures
        x == y,
{
    assert(spec_ser_u32(x)[0] == spec_ser_u32(y)[0]);
    assert(spec_ser_u32(x)[1] == spec_ser_u32(y)[1]);
    assert(spec_ser_u32(x)[2] == spec_ser_u32(y)[2]);
    assert(spec_ser_u32(x)[3] == spec_ser_u32(y)[3]);
    assert(x == y) by (bit_vector)
        requires
            (x & 0xff) as u8 == (y & 0xff) as u8,
            ((x >> 8) & 0xff) as u8 == ((y >> 8) & 0xff) as u8,
            ((x >> 16) & 0xff) as u8 == ((y >> 16) & 0xff) as u8,
            ((x >> 24) & 0xff) as u8 == ((y >> 24) & 0xff) as u8,
    ;
}

/// Two 64-bit fields with the same bytes hold the same value.
pub proof fn lemma_ser_u64_injective(x: u64, y: u64)
    requires
        spec_ser_u64(x) == spec_ser_u64(y),
    ensures
        x == y,
{
    assert(spec_ser_u64(x)[0] == spec_ser_u64(y)[0]);
    assert(spec_ser_u64(x)[1] == spec_ser_u64(y)[1]);
    assert(spec_ser_u64(x)[2] == spec_ser_u64(y)[2]);
    assert(spec_ser_u64(x)[3] == spec_ser_u64(y)[3]);
    assert(spec_ser_u64(x)[4] == spec_ser_u64(y)[4]);
    assert(spec_ser_u64(x)[5] == spec_ser_u64(y)[5]);
    assert(spec_ser_u64(x)[6] == spec_ser_u64(y)[6]);
    assert(spec_ser_u64(x)[7] == spec_ser_u64(y)[7]);
    assert(x == y) by (bit_vector)
        requires
            (x & 0xff) as u8 == (y & 0xff) as u8,
            ((x >> 8) & 0xff) as u8 == ((y >> 8) & 0xff) as u8,
            ((x >> 16) & 0xff) as u8 == ((y >> 16) & 0xff) as u8,
            ((x >> 24) & 0xff) as u8 == ((y >> 24) & 0xff) as u8,
            ((x >> 32) & 0xff) as u8 == ((y >> 32) & 0xff) as u8,
            ((x >> 40) & 0xff) as u8 == ((y >> 40) & 0xff) as u8,
            ((x >> 48) & 0xff) as u8 == ((y >> 48) & 0xff) as u8,
            ((x >> 56) & 0xff) as u8 == ((y >> 56) & 0xff) as u8,
    ;
}

/// Two blobs encoded at the same offset are the same blob.
pub proof fn lemma_ser_bytes_prefix_det(s: Seq<u8>, pos: int, a: Seq<u8>, b: Seq<u8>)
    requires
        bytes_wf(a),
        bytes_wf(b),
        prefix_at(s, pos, spec_ser_bytes(a)),
        prefix_at(s, pos, spec_ser_bytes(b)),
    ensures
        a == b,
{
    lemma_prefix_at_concat(s, pos, spec_ser_u32(a.len() as u32), a);
    lemma_prefix_at_concat(s, pos, spec_ser_u32(b.len() as u32), b);
    assert(spec_ser_u32(a.len() as u32) =~= s.subrange(pos, pos + 4));
    assert(spec_ser_u32(b.len() as u32) =~= s.subrange(pos, pos + 4));
    lemma_ser_u32_injective(a.len() as u32, b.len() as u32);
    assert(a =~= b);
}

/// Two 32-bit fields encoded at the same offset hold the same value.
pub proof fn lemma_ser_u32_prefix_det(s: Seq<u8>, pos: int, x: u32, y: u32)
    requires
        prefix_at(s, pos, spec_ser_u32(x)),
        prefix_at(s, pos, spec_ser_u32(y)),
    ensures
        x == y,
{
    assert(spec_ser_u32(x) =~= s.subrange(pos, pos + 4));
    assert(spec_ser_u32(y) =~= s.subrange(pos, pos + 4));
    lemma_ser_u32_injective(x, y);
}

/// Two 64-bit fields encoded at the same offset hold the same value.
pub proof fn lemma_ser_u64_prefix_det(s: Seq<u8>, pos: int, x: u64, y: u64)
    requires
        prefix_at(s, pos, spec_ser_u64(x)),
        prefix_at(s, pos, spec_ser_u64(y)),
    ensures
        x == y,
{
    assert(spec_ser_u64(x) =~= s.subrange(pos, pos + 8));
    assert(spec_ser_u64(y) =~= s.subrange(pos, pos + 8));
    lemma_ser_u64_injective(x, y);
}

/// A sequence is its own encoding-prefix at offset zero.
pub proof fn lemma_prefix_at_whole(s: Seq<u8>)
    ensures
        prefix_at(s, 0, s),
{
    assert(s.subrange(0, s.len() as int) =~= s);
}

fn decoding_error(detail: &str) -> (r: Error) {
    Error::DecodingError(detail.to_owned())
}

pub fn ser_u32(out: &mut Vec<u8>, x: u32)
    ensures
        final(out)@ == old(out)@ + spec_ser_u32(x),
{
    out.push((x & 0xff) as u8);
    out.push(((x >> 8) & 0xff) as u8);
    out.push(((x >> 16) & 0xff) as u8);
    out.push(((x >> 24) & 0xff) as u8);
    proof {
        assert(out@ =~= old(out)@ + spec_ser_u32(x));
    }
}

pub fn ser_u64(out: &mut Vec<u8>, x: u64)
    ensures
        final(out)@ == old(out)@ + spec_ser_u64(x),
{
    out.push((x & 0xff) as u8);
    out.push(((x >> 8) & 0xff) as u8);
    out.push(((x >> 16) & 0xff) as u8);
    out.push(((x >> 24) & 0xff) as u8);
    out.push(((x >> 32) & 0xff) as u8);
    out.push(((x >> 40) & 0xff) as u8);
    out.push(((x >> 48) & 0xff) as u8);
    out.push(((x >> 56) & 0xff) as u8);
    proof {
        assert(out@ =~= old(out)@ + spec_ser_u64(x));
    }
}

pub fn ser_bytes(out: &mut Vec<u8>, data: &Vec<u8>)
    requires
        bytes_wf(data@),
    ensures
        final(out)@ == old(out)@ + spec_ser_bytes(data@),
{
    ser_u32(out, data.len() as u32);
    let ghost mid = out@;
    let n = data.len();
    let mut i: usize = 0;
    while i < n
        invariant
            n == data@.len(),
            i <= n,
            out@ == mid + data@.subrange(0, i as int),
        decreases n - i,
    {
        out.push(data[i]);
        i = i + 1;
        proof {
            assert(out@ =~= mid + data@.subrange(0, i as int));
        }
    }
    proof {
        assert(data@.subrange(0, n as int) =~= data@);
        assert(out@ =~= old(out)@ + spec_ser_bytes(data@));
    }
}

pub fn des_u32(bytes: &Vec<u8>, pos: usize) -> (r: Result<(u32, usize), Error>)
    requires
        pos <= bytes@.len(),
    ensures
        match r {
            Ok(t) => t.1 == pos + 4 && prefix_at(bytes@, pos as int, spec_ser_u32(t.0)),
            Err(_) => bytes@.len() - pos < 4,
        },
{
    if bytes.len() - pos < 4 {
        return Err(decoding_error("truncated 32-bit field"));
    }
    let b0 = bytes[pos];
    let b1 = bytes[pos + 1];
    let b2 = bytes[pos + 2];
    let b3 = bytes[pos + 3];
    let x: u32 = (b0 as u32) | ((b1 as u32) << 8) | ((b2 as u32) << 16) | ((b3 as u32) << 24);
    proof {
        assert((x & 0xff) as u8 == b0 && ((x >> 8) & 0xff) as u8 == b1 && ((x >> 16) & 0xff) as u8
            == b2 && ((x >> 24) & 0xff) as u8 == b3) by (bit_vector)
            requires
                x == (b0 as u32) | ((b1 as u32) << 8) | ((b2 as u32) << 16) | ((b3 as u32) << 24),
        ;
        assert(bytes@.subrange(pos as int, pos as int + 4) =~= spec_ser_u32(x));
    }
    Ok((x, pos + 4))
}

pub fn des_u64(bytes: &Vec<u8>, pos: usize) -> (r: Result<(u64, usize), Error>)
    requires
        pos <= bytes@.len(),
    ensures
        match r {
            Ok(t) => t.1 == pos + 8 && prefix_at(bytes@, pos as int, spec_ser_u64(t.0)),
            Err(_) => bytes@.len() - pos < 8,
        },
{
    if bytes.len() - pos < 8 {
        return Err(decoding_error("truncated 64-bit field"));
    }
    let b0 = bytes[pos];
    let b1 = bytes[pos + 1];
    let b2 = bytes[pos + 2];
    let b3 = bytes[pos + 3];
    let b4 = bytes[pos + 4];
    let b5 = bytes[pos + 5];
    let b6 = bytes[pos + 6];
    let b7 = bytes[pos + 7];
    let x: u64 = (b0 as u64) | ((b1 as u64) << 8) | ((b2 as u64) << 16) | ((b3 as u64) << 24) | (
    (b4 as u64) << 32) | ((b5 as u64) << 40) | ((b6 as u64) << 48) | ((b7 as u64) << 56);
    proof {
        assert((x & 0xff) as u8 == b0 && ((x >> 8) & 0xff) as u8 == b1 && ((x >> 16) & 0xff) as u8
            == b2 && ((x >> 24) & 0xff) as u8 == b3 && ((x >> 32) & 0xff) as u8 == b4 && ((x >> 40)
            & 0xff) as u8 == b5 && ((x >> 48) & 0xff) as u8 == b6 && ((x >> 56) & 0xff) as u8
            == b7) by (bit_vector)
            requires
                x == (b0 as u64) | ((b1 as u64) << 8) | ((b2 as u64) << 16) | ((b3 as u64) << 24)
                    | ((b4 as u64) << 32) | ((b5 as u64) << 40) | ((b6 as u64) << 48) | ((
                b7 as u64) << 56),
        ;
        assert(bytes@.subrange(pos as int, pos as int + 8) =~= spec_ser_u64(x));
    }
    Ok((x, pos + 8))
}

pub fn des_bytes(bytes: &Vec<u8>, pos: usize) -> (r: Result<(Vec<u8>, usize), Error>)
    requires
        pos <= bytes@.len(),
    ensures
        match r {
            Ok(t) => {
                &&& bytes_wf(t.0@)
                &&& prefix_at(bytes@, pos as int, spec_ser_bytes(t.0@))
                &&& t.1 == pos + spec_ser_bytes(t.0@).len()
                &&& t.1 <= bytes@.len()
            },
            Err(_) => forall|b: Seq<u8>|
                bytes_wf(b) ==> !prefix_at(bytes@, pos as int, spec_ser_bytes(b)),
        },
{
    let parsed = des_u32(bytes, pos)?;
    let n_u32 = parsed.0;
    let body = parsed.1;
    let n = n_u32 as usize;
    if bytes.len() - body < n {
        proof {
            assert forall|b: Seq<u8>|
                bytes_wf(b) && prefix_at(bytes@, pos as int, spec_ser_bytes(b)) implies false by {
                lemma_prefix_at_concat(bytes@, pos as int, spec_ser_u32(b.len() as u32), b);
                assert(spec_ser_u32(b.len() as u32) =~= bytes@.subrange(pos as int, pos as int + 4));
                assert(spec_ser_u32(n_u32) =~= bytes@.subrange(pos as int, pos as int + 4));
                lemma_ser_u32_injective(b.len() as u32, n_u32);
            }
        }
        return Err(decoding_error("truncated byte blob"));
    }
    let v = slice_to_vec(slice_subrange(bytes.as_slice(), body, body + n));
    proof {
        assert(v@ == bytes@.subrange(body as int, body as int + n));
        assert(spec_ser_u32(v@.len() as u32) =~= bytes@.subrange(pos as int, pos as int + 4));
        lemma_prefix_at_concat(bytes@, pos as int, spec_ser_u32(v@.len() as u32), v@);
        assert(prefix_at(bytes@, pos as int, spec_ser_bytes(v@)));
    }
    Ok((v, body + n))
}

/// A string fits the wire format when its UTF-8 bytes fit the length prefix.
pub open spec fn string_wf(s: Seq<char>) -> bool {
    encode_utf8(s).len() <= u32::MAX
}

/// A string field: its UTF-8 bytes as a length-prefixed blob.
pub open spec fn spec_ser_string(s: Seq<char>) -> Seq<u8> {
    spec_ser_bytes(encode_utf8(s))
}

/// Two strings encoded at the same offset are the same string.
pub proof fn lemma_ser_string_prefix_det(s: Seq<u8>, pos: int, a: Seq<char>, b: Seq<char>)
    requires
        string_wf(a),
        string_wf(b),
        prefix_at(s, pos, spec_ser_string(a)),
        prefix_at(s, pos, spec_ser_string(b)),
    ensures
        a == b,
{
    lemma_ser_bytes_prefix_det(s, pos, encode_utf8(a), encode_utf8(b));
    encode_utf8_decode_utf8(a);
    encode_utf8_decode_utf8(b);
}

/// Relies on std's String::from_utf8: it succeeds exactly on valid UTF-8
/// input and returns the characters that the bytes encode.
#[verifier::external_body]
fn string_from_utf8(v: Vec<u8>) -> (r: Option<String>)
    ensures
        r matches Some(s) ==> valid_utf8(v@) && s@ == decode_utf8(v@),
        r is None ==> !valid_utf8(v@),
{
    String::from_utf8(v).ok()
}

pub fn ser_string(out: &mut Vec<u8>, s: &String)
    requires
        string_wf(s@),
    ensures
        final(out)@ == old(out)@ + spec_ser_string(s@),
{
    let bv = s.as_str().as_bytes_vec();
    ser_bytes(out, &bv);
}

pub fn des_string(bytes: &Vec<u8>, pos: usize) -> (r: Result<(String, usize), Error>)
    requires
        pos <= bytes@.len(),
    ensures
        match r {
            Ok(t) => {
                &&& string_wf(t.0@)
                &&& prefix_at(bytes@, pos as int, spec_ser_string(t.0@))
                &&& t.1 == pos + spec_ser_string(t.0@).len()
                &&& t.1 <= bytes@.len()
            },
            Err(_) => forall|c: Seq<char>|
                string_wf(c) ==> !prefix_at(bytes@, pos as int, spec_ser_string(c)),
        },
{
    let parsed = match des_bytes(bytes, pos) {
        Ok(t) => t,
        Err(e) => {
            proof {
                assert forall|c: Seq<char>| string_wf(c) implies !prefix_at(
                    bytes@,
                    pos as int,
                    spec_ser_string(c),
                ) by {
                    assert(spec_ser_string(c) == spec_ser_bytes(encode_utf8(c)));
                    assert(bytes_wf(encode_utf8(c)));
                }
            }
            return Err(e);
        },
    };
    let v = parsed.0;
    let end = parsed.1;
    let ghost vb = v@;
    match string_from_utf8(v) {
        Some(st) => {
            proof {
                decode_utf8_encode_utf8(vb);
            }
            Ok((st, end))
        },
        None => {
            proof {
                assert forall|c: Seq<char>|
                    string_wf(c) && prefix_at(
                        bytes@,
                        pos as int,
                        spec_ser_string(c),
                    ) implies false by {
                    encode_utf8_valid_utf8(c);
                    lemma_ser_bytes_prefix_det(bytes@, pos as int, encode_utf8(c), vb);
                }
            }
            Err(decoding_error("string field is not valid UTF-8"))
        },
    }
}

/// The concatenated encodings of a run of blobs.
pub open spec fn spec_ser_bytes_seq(s: Seq<Seq<u8>>) -> Seq<u8>
    decreases s.len(),
{
    if s.len() == 0 {
        Seq::empty()
    } else {
        spec_ser_bytes(s.first()) + spec_ser_bytes_seq(s.drop_first())
    }
}

/// A run of blobs fits the wire format when the count and every blob fit
/// their length prefixes.
pub open spec fn vec_bytes_wf(s: Seq<Seq<u8>>) -> bool {
    &&& s.len() <= u32::MAX
    &&& forall|i: int| 0 <= i < s.len() ==> bytes_wf(#[trigger] s[i])
}

/// A counted run of blobs: the count, then each blob in order.
pub open spec fn spec_ser_vec_bytes(s: Seq<Seq<u8>>) -> Seq<u8> {
    spec_ser_u32(s.len() as u32) + spec_ser_bytes_seq(s)
}

pub proof fn lemma_ser_bytes_seq_push(s: Seq<Seq<u8>>, e: Seq<u8>)
    ensures
        spec_ser_bytes_seq(s.push(e)) == spec_ser_bytes_seq(s) + spec_ser_bytes(e),
    decreases s.len(),
{
    if s.len() == 0 {
        assert(s.push(e).drop_first() =~= s);
        assert(spec_ser_bytes_seq(s.push(e)) =~= spec_ser_bytes_seq(s) + spec_ser_bytes(e));
    } else {
        assert(s.push(e).drop_first() =~= s.drop_first().push(e));
        lemma_ser_bytes_seq_push(s.drop_first(), e);
        assert(spec_ser_bytes_seq(s.push(e)) =~= spec_ser_bytes_seq(s) + spec_ser_bytes(e));
    }
}

/// Runs of blobs encoded at the same offset agree on their common length.
pub proof fn lemma_ser_bytes_seq_prefix_det(s: Seq<u8>, pos: int, a: Seq<Seq<u8>>, b: Seq<Seq<u8>>)
    requires
        a.len() <= b.len(),
        forall|i: int| 0 <= i < a.len() ==> bytes_wf(#[trigger] a[i]),
        forall|i: int| 0 <= i < b.len() ==> bytes_wf(#[trigger] b[i]),
        prefix_at(s, pos, spec_ser_bytes_seq(a)),
        prefix_at(s, pos, spec_ser_bytes_seq(b)),
    ensures
        forall|k: int| 0 <= k < a.len() ==> a[k] == b[k],
    decreases a.len(),
{
    if a.len() > 0 {
        lemma_prefix_at_concat(s, pos, spec_ser_bytes(a.first()), spec_ser_bytes_seq(a.drop_first()));
        lemma_prefix_at_concat(s, pos, spec_ser_bytes(b.first()), spec_ser_bytes_seq(b.drop_first()));
        lemma_ser_bytes_prefix_det(s, pos, a.first(), b.first());
        lemma_ser_bytes_seq_prefix_det(
            s,
            pos + spec_ser_bytes(a.first()).len(),
            a.drop_first(),
            b.drop_first(),
        );
        assert forall|k: int| 0 <= k < a.len() implies a[k] == b[k] by {
            if k > 0 {
                assert(a.drop_first()[k - 1] == b.drop_first()[k - 1]);
            }
        }
    }
}

/// The encoding of a run splits around any one of its blobs.
pub proof fn lemma_ser_bytes_seq_split(s: Seq<Seq<u8>>, i: int)
    requires
        0 <= i < s.len(),
    ensures
        spec_ser_bytes_seq(s) == spec_ser_bytes_seq(s.take(i)) + (spec_ser_bytes(s[i])
            + spec_ser_bytes_seq(s.skip(i + 1))),
    decreases i,
{
    if i == 0 {
        assert(s.take(0) =~= Seq::<Seq<u8>>::empty());
        assert(s.skip(1) =~= s.drop_first());
        assert(spec_ser_bytes_seq(s) =~= spec_ser_bytes_seq(s.take(0)) + (spec_ser_bytes(s[0])
            + spec_ser_bytes_seq(s.skip(1))));
    } else {
        lemma_ser_bytes_seq_split(s.drop_first(), i - 1);
        assert(s.drop_first().take(i - 1) =~= s.take(i).drop_first());
        assert(s.drop_first().skip(i) =~= s.skip(i + 1));
        assert(s.drop_first()[i - 1] == s[i]);
        assert(s.take(i).first() == s.first());
        assert(spec_ser_bytes_seq(s) =~= spec_ser_bytes_seq(s.take(i)) + (spec_ser_bytes(s[i])
            + spec_ser_bytes_seq(s.skip(i + 1))));
    }
}

pub fn ser_vec_bytes(out: &mut Vec<u8>, data: &Vec<Vec<u8>>)
    requires
        vec_bytes_wf(data.deep_view()),
    ensures
        final(out)@ == old(out)@ + spec_ser_vec_bytes(data.deep_view()),
{
    ser_u32(out, data.len() as u32);
    let ghost mid = out@;
    let n = data.len();
    let mut i: usize = 0;
    while i < n
        invariant
            n == data@.len(),
            i <= n,
            vec_bytes_wf(data.deep_view()),
            out@ == mid + spec_ser_bytes_seq(data.deep_view().take(i as int)),
        decreases n - i,
    {
        proof {
            assert(data.deep_view()[i as int] == data@[i as int]@);
            lemma_ser_bytes_seq_push(data.deep_view().take(i as int), data@[i as int]@);
            assert(data.deep_view().take(i as int).push(data@[i as int]@) =~= data.deep_view().take(
                i as int + 1,
            ));
        }
        ser_bytes(out, &data[i]);
        i = i + 1;
    }
    proof {
        assert(data.deep_view().take(n as int) =~= data.deep_view());
        assert(out@ =~= old(out)@ + spec_ser_vec_bytes(data.deep_view()));
    }
}

pub fn des_vec_bytes(bytes: &Vec<u8>, pos: usize) -> (r: Result<(Vec<Vec<u8>>, usize), Error>)
    requires
        pos <= bytes@.len(),
    ensures
        match r {
            Ok(t) => {
                &&& vec_bytes_wf(t.0.deep_view())
                &&& prefix_at(bytes@, pos as int, spec_ser_vec_bytes(t.0.deep_view()))
                &&& t.1 == pos + spec_ser_vec_bytes(t.0.deep_view()).len()
                &&& t.1 <= bytes@.len()
            },
            Err(_) => forall|s: Seq<Seq<u8>>|
                vec_bytes_wf(s) ==> !prefix_at(bytes@, pos as int, spec_ser_vec_bytes(s)),
        },
{
    let parsed = match des_u32(bytes, pos) {
        Ok(t) => t,
        Err(e) => {
            return Err(e);
        },
    };
    let count = parsed.0;
    let mut cur = parsed.1;
    let mut out: Vec<Vec<u8>> = Vec::new();
    let n = count as usize;
    let mut i: usize = 0;
    proof {
        assert(out.deep_view() =~= Seq::<Seq<u8>>::empty());
        assert(bytes@.subrange(pos as int + 4, pos as int + 4) =~= Seq::<u8>::empty());
        assert(prefix_at(bytes@, pos as int + 4, spec_ser_bytes_seq(out.deep_view())));
    }
    while i < n
        invariant
            pos <= bytes@.len(),
            n == count,
            i <= n,
            out@.len() == i,
            vec_bytes_wf(out.deep_view()),
            prefix_at(bytes@, pos as int, spec_ser_u32(count)),
            prefix_at(bytes@, pos as int + 4, spec_ser_bytes_seq(out.deep_view())),
            cur == pos + 4 + spec_ser_bytes_seq(out.deep_view()).len(),
            cur <= bytes@.len(),
        decreases n - i,
    {
        let ghost prev = out.deep_view();
        match des_bytes(bytes, cur) {
            Ok(t) => {
                let ghost e = t.0@;
                proof {
                    lemma_ser_bytes_seq_push(prev, e);
                    lemma_prefix_at_concat(
                        bytes@,
                        pos as int + 4,
                        spec_ser_bytes_seq(prev),
                        spec_ser_bytes(e),
                    );
                }
                out.push(t.0);
                cur = t.1;
                proof {
                    assert(out.deep_view() =~~= prev.push(e));
                }
            },
            Err(e) => {
                proof {
                    assert forall|s: Seq<Seq<u8>>|
                        vec_bytes_wf(s) && prefix_at(
                            bytes@,
                            pos as int,
                            spec_ser_vec_bytes(s),
                        ) implies false by {
                        lemma_prefix_at_concat(
                            bytes@,
                            pos as int,
                            spec_ser_u32(s.len() as u32),
                            spec_ser_bytes_seq(s),
                        );
                        assert(spec_ser_u32(s.len() as u32) =~= bytes@.subrange(
                            pos as int,
                            pos as int + 4,
                        ));
                        assert(spec_ser_u32(count) =~= bytes@.subrange(pos as int, pos as int + 4));
                        lemma_ser_u32_injective(s.len() as u32, count);
                        lemma_ser_bytes_seq_split(s, i as int);
                        lemma_prefix_at_concat(
                            bytes@,
                            pos as int + 4,
                            spec_ser_bytes_seq(s.take(i as int)),
                            spec_ser_bytes(s[i as int]) + spec_ser_bytes_seq(s.skip(i as int + 1)),
                        );
                        lemma_ser_bytes_seq_prefix_det(
                            bytes@,
                            pos as int + 4,
                            out.deep_view(),
                            s.take(i as int),
                        );
                        assert(s.take(i as int) =~= out.deep_view());
                        lemma_prefix_at_concat(
                            bytes@,
                            pos as int + 4 + spec_ser_bytes_seq(s.take(i as int)).len(),
                            spec_ser_bytes(s[i as int]),
                            spec_ser_bytes_seq(s.skip(i as int + 1)),
                        );
                    }
                }
                return Err(e);
            },
        }
        i = i + 1;
    }
    proof {
        lemma_prefix_at_concat(
            bytes@,
            pos as int,
            spec_ser_u32(count),
            spec_ser_bytes_seq(out.deep_view()),
        );
        assert(out.deep_view().len() == count);
        assert(prefix_at(bytes@, pos as int, spec_ser_vec_bytes(out.deep_view())));
    }
    Ok((out, cur))
}

/// Two counted runs of blobs encoded at the same offset are the same run.
pub proof fn lemma_ser_vec_bytes_prefix_det(s: Seq<u8>, pos: int, a: Seq<Seq<u8>>, b: Seq<Seq<u8>>)
    requires
        vec_bytes_wf(a),
        vec_bytes_wf(b),
        prefix_at(s, pos, spec_ser_vec_bytes(a)),
        prefix_at(s, pos, spec_ser_vec_bytes(b)),
    ensures
        a == b,
{
    lemma_prefix_at_concat(s, pos, spec_ser_u32(a.len() as u32), spec_ser_bytes_seq(a));
    lemma_prefix_at_concat(s, pos, spec_ser_u32(b.len() as u32), spec_ser_bytes_seq(b));
    lemma_ser_u32_prefix_det(s, pos, a.len() as u32, b.len() as u32);
    lemma_ser_bytes_seq_prefix_det(s, pos + 4, a, b);
    assert(a =~= b);
}

/// An optional string fits the wire format when its payload, if present, does.
pub open spec fn opt_string_wf(o: Option<Seq<char>>) -> bool {
    o matches Some(s) ==> string_wf(s)
}

/// An optional string: a one-byte presence flag, then the payload if present.
pub open spec fn spec_ser_opt_string(o: Option<Seq<char>>) -> Seq<u8> {
    match o {
        None => seq![0u8],
        Some(s) => seq![1u8] + spec_ser_string(s),
    }
}

/// Two optional strings encoded at the same offset are the same option.
pub proof fn lemma_ser_opt_string_prefix_det(
    s: Seq<u8>,
    pos: int,
    a: Option<Seq<char>>,
    b: Option<Seq<char>>,
)
    requires
        opt_string_wf(a),
        opt_string_wf(b),
        prefix_at(s, pos, spec_ser_opt_string(a)),
        prefix_at(s, pos, spec_ser_opt_string(b)),
    ensures
        a == b,
{
    if a is Some {
        lemma_prefix_at_concat(s, pos, seq![1u8], spec_ser_string(a->0));
        assert(s.subrange(pos, pos + 1) == seq![1u8]);
        assert(s.subrange(pos, pos + 1)[0] == s[pos]);
        assert(s[pos] == 1u8);
    } else {
        assert(s.subrange(pos, pos + 1) == seq![0u8]);
        assert(s.subrange(pos, pos + 1)[0] == s[pos]);
        assert(s[pos] == 0u8);
    }
    if b is Some {
        lemma_prefix_at_concat(s, pos, seq![1u8], spec_ser_string(b->0));
        assert(s.subrange(pos, pos + 1) == seq![1u8]);
        assert(s.subrange(pos, pos + 1)[0] == s[pos]);
        assert(s[pos] == 1u8);
    } else {
        assert(s.subrange(pos, pos + 1) == seq![0u8]);
        assert(s.subrange(pos, pos + 1)[0] == s[pos]);
        assert(s[pos] == 0u8);
    }
    match (a, b) {
        (Some(x), Some(y)) => {
            lemma_ser_string_prefix_det(s, pos + 1, x, y);
        },
        _ => {},
    }
}

pub fn ser_opt_string(out: &mut Vec<u8>, data: &Option<String>)
    requires
        opt_string_wf(data.deep_view()),
    ensures
        final(out)@ == old(out)@ + spec_ser_opt_string(data.deep_view()),
{
    match data {
        None => {
            out.push(0u8);
            proof {
                assert(out@ =~= old(out)@ + spec_ser_opt_string(data.deep_view()));
            }
        },
        Some(s) => {
            out.push(1u8);
            ser_string(out, s);
            proof {
                assert(out@ =~= old(out)@ + spec_ser_opt_string(data.deep_view()));
            }
        },
    }
}

pub fn des_opt_string(bytes: &Vec<u8>, pos: usize) -> (r: Result<(Option<String>, usize), Error>)
    requires
        pos <= bytes@.len(),
    ensures
        match r {
            Ok(t) => {
                &&& opt_string_wf(t.0.deep_view())
                &&& prefix_at(bytes@, pos as int, spec_ser_opt_string(t.0.deep_view()))
                &&& t.1 == pos + spec_ser_opt_string(t.0.deep_view()).len()
                &&& t.1 <= bytes@.len()
            },
            Err(_) => forall|o: Option<Seq<char>>|
                opt_string_wf(o) ==> !prefix_at(bytes@, pos as int, spec_ser_opt_string(o)),
        },
{
    if bytes.len() - pos < 1 {
        return Err(decoding_error("truncated presence flag"));
    }
    let flag = bytes[pos];
    if flag == 0 {
        proof {
            assert(bytes@.subrange(pos as int, pos as int + 1) =~= seq![0u8]);
        }
        Ok((None, pos + 1))
    } else if flag == 1 {
        match des_string(bytes, pos + 1) {
            Ok(t) => {
                proof {
                    assert(bytes@.subrange(pos as int, pos as int + 1) =~= seq![1u8]);
                    lemma_prefix_at_concat(
                        bytes@,
                        pos as int,
                        seq![1u8],
                        spec_ser_string(t.0@),
                    );
                }
                Ok((Some(t.0), t.1))
            },
            Err(e) => {
                proof {
                    assert forall|o: Option<Seq<char>>|
                        opt_string_wf(o) && prefix_at(
                            bytes@,
                            pos as int,
                            spec_ser_opt_string(o),
                        ) implies false by {
                        match o {
                            None => {
                                assert(bytes@.subrange(pos as int, pos as int + 1)[0] == 0u8);
                                assert(bytes@[pos as int] == 0u8);
                            },
                            Some(c) => {
                                lemma_prefix_at_concat(
                                    bytes@,
                                    pos as int,
                                    seq![1u8],
                                    spec_ser_string(c),
                                );
                            },
                        }
                    }
                }
                Err(e)
            },
        }
    } else {
        proof {
            assert forall|o: Option<Seq<char>>|
                opt_string_wf(o) && prefix_at(
                    bytes@,
                    pos as int,
                    spec_ser_opt_string(o),
                ) implies false by {
                match o {
                    None => {
                        assert(bytes@.subrange(pos as int, pos as int + 1)[0] == 0u8);
                        assert(bytes@[pos as int] == 0u8);
                    },
                    Some(c) => {
                        lemma_prefix_at_concat(bytes@, pos as int, seq![1u8], spec_ser_string(c));
                        assert(bytes@.subrange(pos as int, pos as int + 1)[0] == 1u8);
                        assert(bytes@[pos as int] == 1u8);
                    },
                }
            }
        }
        Err(decoding_error("invalid presence flag"))
    }
}

} // verus!
