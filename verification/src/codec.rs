use vstd::prelude::*;

use crate::error::CertError;
use crate::state::Certificate;
use crate::state::CertificateView;
use crate::state::ISSUER_LEN;
use crate::state::MAX_CANDIDATE_ID_LEN;
use crate::state::MAX_CANDIDATE_NAME_LEN;
use crate::state::MAX_DESCRIPTION_LEN;
use crate::state::MAX_INSTITUTION_ID_LEN;
use crate::state::MAX_INSTITUTION_NAME_LEN;
use crate::state::MAX_URI_LEN;
use crate::state::encodable;

verus! {

// ---------------------------------------------------------------------------
// Little-endian integer encodings
// ---------------------------------------------------------------------------

/// The four little-endian bytes of a 32-bit length prefix.
pub open spec fn u32_le(n: u32) -> Seq<u8> {
    seq![
        (n & 0xff) as u8,
        ((n >> 8) & 0xff) as u8,
        ((n >> 16) & 0xff) as u8,
        ((n >> 24) & 0xff) as u8,
    ]
}

/// The 32-bit value read back from four little-endian bytes.
pub open spec fn u32_from_le(b0: u8, b1: u8, b2: u8, b3: u8) -> u32 {
    (b0 as u32) | ((b1 as u32) << 8) | ((b2 as u32) << 16) | ((b3 as u32) << 24)
}

/// The eight little-endian, sign-preserving bytes of a 64-bit timestamp.
pub open spec fn i64_le(n: i64) -> Seq<u8> {
    seq![
        ((n as u64) & 0xff) as u8,
        (((n as u64) >> 8) & 0xff) as u8,
        (((n as u64) >> 16) & 0xff) as u8,
        (((n as u64) >> 24) & 0xff) as u8,
        (((n as u64) >> 32) & 0xff) as u8,
        (((n as u64) >> 40) & 0xff) as u8,
        (((n as u64) >> 48) & 0xff) as u8,
        (((n as u64) >> 56) & 0xff) as u8,
    ]
}

/// The 64-bit signed value read back from eight little-endian bytes.
pub open spec fn i64_from_le(b: Seq<u8>) -> i64 {
    ((b[0] as u64)
        | ((b[1] as u64) << 8)
        | ((b[2] as u64) << 16)
        | ((b[3] as u64) << 24)
        | ((b[4] as u64) << 32)
        | ((b[5] as u64) << 40)
        | ((b[6] as u64) << 48)
        | ((b[7] as u64) << 56)) as i64
}

/// Reading back the four bytes of a length prefix restores the value.
pub proof fn lemma_u32_le_roundtrip(n: u32)
    ensures
        u32_from_le(u32_le(n)[0], u32_le(n)[1], u32_le(n)[2], u32_le(n)[3]) == n,
{
    assert(u32_from_le(
        (n & 0xff) as u8,
        ((n >> 8) & 0xff) as u8,
        ((n >> 16) & 0xff) as u8,
        ((n >> 24) & 0xff) as u8,
    ) == n) by (bit_vector);
}

/// Reading back the eight bytes of a timestamp restores the value.
pub proof fn lemma_i64_le_roundtrip(n: i64)
    ensures
        i64_from_le(i64_le(n)) == n,
{
    assert(i64_from_le(i64_le(n)) == ((((n as u64) & 0xff) as u8 as u64)
        | ((((n as u64) >> 8) & 0xff) as u8 as u64) << 8
        | ((((n as u64) >> 16) & 0xff) as u8 as u64) << 16
        | ((((n as u64) >> 24) & 0xff) as u8 as u64) << 24
        | ((((n as u64) >> 32) & 0xff) as u8 as u64) << 32
        | ((((n as u64) >> 40) & 0xff) as u8 as u64) << 40
        | ((((n as u64) >> 48) & 0xff) as u8 as u64) << 48
        | ((((n as u64) >> 56) & 0xff) as u8 as u64) << 56) as i64);
    assert(((((n as u64) & 0xff) as u8 as u64)
        | ((((n as u64) >> 8) & 0xff) as u8 as u64) << 8
        | ((((n as u64) >> 16) & 0xff) as u8 as u64) << 16
        | ((((n as u64) >> 24) & 0xff) as u8 as u64) << 24
        | ((((n as u64) >> 32) & 0xff) as u8 as u64) << 32
        | ((((n as u64) >> 40) & 0xff) as u8 as u64) << 40
        | ((((n as u64) >> 48) & 0xff) as u8 as u64) << 48
        | ((((n as u64) >> 56) & 0xff) as u8 as u64) << 56) as i64 == n) by (bit_vector);
}

/// Two timestamps with the same little-endian bytes are the same value.
pub proof fn lemma_i64_le_injective(a: i64, b: i64)
    requires
        i64_le(a) == i64_le(b),
    ensures
        a == b,
{
    lemma_i64_le_roundtrip(a);
    lemma_i64_le_roundtrip(b);
}

fn push_u32_le(out: &mut Vec<u8>, n: u32)
    ensures
        final(out)@ == old(out)@ + u32_le(n),
{
    proof {
        assert((n & 0xff) < 256 && ((n >> 8) & 0xff) < 256 && ((n >> 16) & 0xff) < 256 && ((n
            >> 24) & 0xff) < 256) by (bit_vector);
    }
    out.push((n & 0xff) as u8);
    out.push(((n >> 8) & 0xff) as u8);
    out.push(((n >> 16) & 0xff) as u8);
    out.push(((n >> 24) & 0xff) as u8);
    proof {
        assert(out@ =~= old(out)@ + u32_le(n));
    }
}

pub(crate) fn push_i64_le(out: &mut Vec<u8>, n: i64)
    ensures
        final(out)@ == old(out)@ + i64_le(n),
{
    let u: u64 = #[verifier::truncate] (n as u64);
    proof {
        assert((u & 0xff) < 256 && ((u >> 8) & 0xff) < 256 && ((u >> 16) & 0xff) < 256 && ((u
            >> 24) & 0xff) < 256 && ((u >> 32) & 0xff) < 256 && ((u >> 40) & 0xff) < 256 && ((u
            >> 48) & 0xff) < 256 && ((u >> 56) & 0xff) < 256) by (bit_vector);
    }
    out.push((u & 0xff) as u8);
    out.push(((u >> 8) & 0xff) as u8);
    out.push(((u >> 16) & 0xff) as u8);
    out.push(((u >> 24) & 0xff) as u8);
    out.push(((u >> 32) & 0xff) as u8);
    out.push(((u >> 40) & 0xff) as u8);
    out.push(((u >> 48) & 0xff) as u8);
    out.push(((u >> 56) & 0xff) as u8);
    proof {
        assert(out@ =~= old(out)@ + i64_le(n));
    }
}

pub(crate) fn copy_bytes(src: &Vec<u8>) -> (r: Vec<u8>)
    ensures
        r@ == src@,
{
    let mut out: Vec<u8> = Vec::new();
    let mut i: usize = 0;
    while i < src.len()
        invariant
            i <= src@.len(),
            out@ == src@.subrange(0, i as int),
        decreases src@.len() - i,
    {
        out.push(src[i]);
        proof {
            assert(out@ =~= src@.subrange(0, i + 1));
        }
        i += 1;
    }
    proof {
        assert(out@ =~= src@);
    }
    out
}

fn push_bytes(out: &mut Vec<u8>, b: &Vec<u8>)
    ensures
        final(out)@ == old(out)@ + b@,
{
    let mut i: usize = 0;
    while i < b.len()
        invariant
            i <= b@.len(),
            out@ == old(out)@ + b@.subrange(0, i as int),
        decreases b@.len() - i,
    {
        out.push(b[i]);
        proof {
            assert(out@ =~= old(out)@ + b@.subrange(0, i + 1));
        }
        i += 1;
    }
    proof {
        assert(b@.subrange(0, b@.len() as int) =~= b@);
    }
}

// ---------------------------------------------------------------------------
// UTF-8 validity
// ---------------------------------------------------------------------------

/// Whether a byte sequence is valid UTF-8. Validity depends on the bytes
/// alone, so the result of the library call below is given this name.
pub uninterp spec fn utf8_ok(b: Seq<u8>) -> bool;

/// Relies on core::str::from_utf8: it returns `Ok` exactly on valid UTF-8,
/// and validity is a function of the bytes alone.
#[verifier::external_body]
fn is_valid_utf8(b: &Vec<u8>) -> (r: bool)
    ensures
        r == utf8_ok(b@),
{
    match core::str::from_utf8(b.as_slice()) {
        Ok(_) => true,
        Err(_) => false,
    }
}

// ---------------------------------------------------------------------------
// Record layout
// ---------------------------------------------------------------------------

/// A variable-length field on the wire: a 4-byte little-endian length
/// prefix holding the actual (not maximum) length, then the bytes.
pub open spec fn len_prefixed(f: Seq<u8>) -> Seq<u8> {
    u32_le(f.len() as u32) + f
}

/// The optional uri on the wire: a single presence byte, and, when present,
/// the uri as a variable-length field.
pub open spec fn uri_bytes(uri: Option<Seq<u8>>) -> Seq<u8> {
    match uri {
        None => seq![0u8],
        Some(u) => seq![1u8] + len_prefixed(u),
    }
}

/// The encoded bytes of a record: every field in the fixed order of the
/// data model, fixed-size fields raw and variable fields length-prefixed.
pub open spec fn encode_spec(v: CertificateView) -> Seq<u8> {
    v.issuer + len_prefixed(v.institution_id) + len_prefixed(v.institution_name) + len_prefixed(
        v.candidate_id,
    ) + len_prefixed(v.candidate_name) + i64_le(v.issued_at) + len_prefixed(v.description)
        + uri_bytes(v.uri)
}

/// An encodable record never encodes to more bytes than the static budget.
pub proof fn lemma_encode_len(v: CertificateView)
    requires
        encodable(v),
    ensures
        encode_spec(v).len() <= 585,
{
}

// ---------------------------------------------------------------------------
// Structural parsing
// ---------------------------------------------------------------------------

/// Take `n` raw bytes at `pos`; fail on a truncated buffer.
pub open spec fn parse_bytes(b: Seq<u8>, pos: int, n: int) -> Option<(Seq<u8>, int)> {
    if 0 <= pos && 0 <= n && pos + n <= b.len() {
        Some((b.subrange(pos, pos + n), pos + n))
    } else {
        None
    }
}

/// Take a length-prefixed field at `pos`; fail on a truncated prefix or on
/// a prefix that exceeds the remaining buffer.
pub open spec fn parse_var(b: Seq<u8>, pos: int) -> Option<(Seq<u8>, int)> {
    if 0 <= pos && pos + 4 <= b.len() {
        parse_bytes(b, pos + 4, u32_from_le(b[pos], b[pos + 1], b[pos + 2], b[pos + 3]) as int)
    } else {
        None
    }
}

/// Take the optional uri at `pos`: a zero presence byte alone, or a one
/// followed by a length-prefixed field; fail on any other presence byte.
pub open spec fn parse_uri(b: Seq<u8>, pos: int) -> Option<(Option<Seq<u8>>, int)> {
    if 0 <= pos && pos + 1 <= b.len() {
        if b[pos] == 0 {
            Some((None, pos + 1))
        } else if b[pos] == 1 {
            match parse_var(b, pos + 1) {
                Some((u, p)) => Some((Some(u), p)),
                None => None,
            }
        } else {
            None
        }
    } else {
        None
    }
}

/// The record read back from a buffer: the fields in layout order, parsed
/// from the front of the buffer; bytes past the encoding are ignored.
/// Yields nothing on a truncated buffer, an oversized length prefix, an
/// unknown presence byte, or a string field that is not valid UTF-8.
pub open spec fn decode_spec(b: Seq<u8>) -> Option<CertificateView> {
    match parse_bytes(b, 0, 32) {
        None => None,
        Some((issuer, p1)) => match parse_var(b, p1) {
            None => None,
            Some((institution_id, p2)) => match parse_var(b, p2) {
                None => None,
                Some((institution_name, p3)) => match parse_var(b, p3) {
                    None => None,
                    Some((candidate_id, p4)) => match parse_var(b, p4) {
                        None => None,
                        Some((candidate_name, p5)) => match parse_bytes(b, p5, 8) {
                            None => None,
                            Some((stamp, p6)) => match parse_var(b, p6) {
                                None => None,
                                Some((description, p7)) => match parse_uri(b, p7) {
                                    None => None,
                                    Some((uri, _p8)) => if utf8_ok(institution_id) && utf8_ok(
                                        institution_name,
                                    ) && utf8_ok(candidate_id) && utf8_ok(candidate_name)
                                        && utf8_ok(description) && (match uri {
                                        Some(u) => utf8_ok(u),
                                        None => true,
                                    }) {
                                        Some(
                                            CertificateView {
                                                issuer,
                                                institution_id,
                                                institution_name,
                                                candidate_id,
                                                candidate_name,
                                                issued_at: i64_from_le(stamp),
                                                description,
                                                uri,
                                            },
                                        )
                                    } else {
                                        None
                                    },
                                },
                            },
                        },
                    },
                },
            },
        },
    }
}

/// Every string field of a record holds valid UTF-8.
pub open spec fn utf8_fields(v: CertificateView) -> bool {
    &&& utf8_ok(v.institution_id)
    &&& utf8_ok(v.institution_name)
    &&& utf8_ok(v.candidate_id)
    &&& utf8_ok(v.candidate_name)
    &&& utf8_ok(v.description)
    &&& match v.uri {
        Some(u) => utf8_ok(u),
        None => true,
    }
}

proof fn lemma_parse_bytes_prefix(front: Seq<u8>, x: Seq<u8>, tail: Seq<u8>)
    ensures
        parse_bytes(front + x + tail, front.len() as int, x.len() as int) == Some(
            (x, (front.len() + x.len()) as int),
        ),
{
    let b = front + x + tail;
    assert(b.subrange(front.len() as int, (front.len() + x.len()) as int) =~= x);
}

proof fn lemma_parse_var_prefix(front: Seq<u8>, x: Seq<u8>, tail: Seq<u8>)
    requires
        x.len() <= u32::MAX,
    ensures
        parse_var(front + len_prefixed(x) + tail, front.len() as int) == Some(
            (x, (front.len() + 4 + x.len()) as int),
        ),
{
    let b = front + len_prefixed(x) + tail;
    let pos = front.len() as int;
    let m = x.len() as u32;
    assert(len_prefixed(x)[0] == u32_le(m)[0]);
    assert(len_prefixed(x)[1] == u32_le(m)[1]);
    assert(len_prefixed(x)[2] == u32_le(m)[2]);
    assert(len_prefixed(x)[3] == u32_le(m)[3]);
    assert(b[pos] == u32_le(m)[0]);
    assert(b[pos + 1] == u32_le(m)[1]);
    assert(b[pos + 2] == u32_le(m)[2]);
    assert(b[pos + 3] == u32_le(m)[3]);
    lemma_u32_le_roundtrip(m);
    assert(m as int == x.len());
    assert(b.subrange(pos + 4, pos + 4 + x.len()) =~= x);
}

proof fn lemma_rt_issuer(v: CertificateView, ext: Seq<u8>)
    requires
        encodable(v),
    ensures
        parse_bytes(encode_spec(v) + ext, 0, 32) == Some((v.issuer, 32int)),
{
    let rest = len_prefixed(v.institution_id) + len_prefixed(v.institution_name) + len_prefixed(
        v.candidate_id,
    ) + len_prefixed(v.candidate_name) + i64_le(v.issued_at) + len_prefixed(v.description)
        + uri_bytes(v.uri) + ext;
    assert(encode_spec(v) + ext =~= Seq::<u8>::empty() + v.issuer + rest);
    lemma_parse_bytes_prefix(Seq::<u8>::empty(), v.issuer, rest);
}

proof fn lemma_rt_institution_id(v: CertificateView, ext: Seq<u8>)
    requires
        encodable(v),
    ensures
        parse_var(encode_spec(v) + ext, 32) == Some(
            (v.institution_id, 36 + v.institution_id.len() as int),
        ),
{
    let front = v.issuer;
    let rest = len_prefixed(v.institution_name) + len_prefixed(v.candidate_id) + len_prefixed(
        v.candidate_name,
    ) + i64_le(v.issued_at) + len_prefixed(v.description) + uri_bytes(v.uri) + ext;
    assert(encode_spec(v) + ext =~= front + len_prefixed(v.institution_id) + rest);
    lemma_parse_var_prefix(front, v.institution_id, rest);
}

#[verifier::rlimit(80)]
#[verifier::spinoff_prover]
proof fn lemma_rt_institution_name(v: CertificateView, ext: Seq<u8>)
    requires
        encodable(v),
    ensures
        parse_var(encode_spec(v) + ext, 36 + v.institution_id.len() as int) == Some(
            (
                v.institution_name,
                40 + v.institution_id.len() + v.institution_name.len() as int,
            ),
        ),
{
    let front = v.issuer + len_prefixed(v.institution_id);
    let rest = len_prefixed(v.candidate_id) + len_prefixed(v.candidate_name) + i64_le(
        v.issued_at,
    ) + len_prefixed(v.description) + uri_bytes(v.uri) + ext;
    assert(encode_spec(v) + ext =~= front + len_prefixed(v.institution_name) + rest);
    lemma_parse_var_prefix(front, v.institution_name, rest);
}

#[verifier::rlimit(80)]
#[verifier::spinoff_prover]
proof fn lemma_rt_candidate_id(v: CertificateView, ext: Seq<u8>)
    requires
        encodable(v),
    ensures
        parse_var(
            encode_spec(v) + ext,
            40 + v.institution_id.len() + v.institution_name.len() as int,
        ) == Some(
            (
                v.candidate_id,
                44 + v.institution_id.len() + v.institution_name.len() + v.candidate_id.len()
                    as int,
            ),
        ),
{
    let front = v.issuer + len_prefixed(v.institution_id) + len_prefixed(v.institution_name);
    let rest = len_prefixed(v.candidate_name) + i64_le(v.issued_at) + len_prefixed(v.description)
        + uri_bytes(v.uri) + ext;
    assert(encode_spec(v) + ext =~= front + len_prefixed(v.candidate_id) + rest);
    lemma_parse_var_prefix(front, v.candidate_id, rest);
}

#[verifier::rlimit(100)]
#[verifier::spinoff_prover]
proof fn lemma_rt_candidate_name(v: CertificateView, ext: Seq<u8>)
    requires
        encodable(v),
    ensures
        parse_var(
            encode_spec(v) + ext,
            44 + v.institution_id.len() + v.institution_name.len() + v.candidate_id.len() as int,
        ) == Some(
            (
                v.candidate_name,
                48 + v.institution_id.len() + v.institution_name.len() + v.candidate_id.len()
                    + v.candidate_name.len() as int,
            ),
        ),
{
    let front = v.issuer + len_prefixed(v.institution_id) + len_prefixed(v.institution_name)
        + len_prefixed(v.candidate_id);
    let rest = i64_le(v.issued_at) + len_prefixed(v.description) + uri_bytes(v.uri) + ext;
    let mid = front + len_prefixed(v.candidate_name);
    assert(encode_spec(v) =~= mid + (i64_le(v.issued_at) + len_prefixed(v.description)
        + uri_bytes(v.uri)));
    assert(encode_spec(v) + ext =~= mid + rest);
    lemma_parse_var_prefix(front, v.candidate_name, rest);
}

#[verifier::rlimit(80)]
#[verifier::spinoff_prover]
proof fn lemma_rt_issued_at(v: CertificateView, ext: Seq<u8>)
    requires
        encodable(v),
    ensures
        parse_bytes(
            encode_spec(v) + ext,
            48 + v.institution_id.len() + v.institution_name.len() + v.candidate_id.len()
                + v.candidate_name.len() as int,
            8,
        ) == Some(
            (
                i64_le(v.issued_at),
                56 + v.institution_id.len() + v.institution_name.len() + v.candidate_id.len()
                    + v.candidate_name.len() as int,
            ),
        ),
{
    let front = v.issuer + len_prefixed(v.institution_id) + len_prefixed(v.institution_name)
        + len_prefixed(v.candidate_id) + len_prefixed(v.candidate_name);
    let rest = len_prefixed(v.description) + uri_bytes(v.uri) + ext;
    assert(encode_spec(v) + ext =~= front + i64_le(v.issued_at) + rest);
    lemma_parse_bytes_prefix(front, i64_le(v.issued_at), rest);
}

#[verifier::rlimit(80)]
#[verifier::spinoff_prover]
proof fn lemma_rt_description(v: CertificateView, ext: Seq<u8>)
    requires
        encodable(v),
    ensures
        parse_var(
            encode_spec(v) + ext,
            56 + v.institution_id.len() + v.institution_name.len() + v.candidate_id.len()
                + v.candidate_name.len() as int,
        ) == Some(
            (
                v.description,
                60 + v.institution_id.len() + v.institution_name.len() + v.candidate_id.len()
                    + v.candidate_name.len() + v.description.len() as int,
            ),
        ),
{
    let front = v.issuer + len_prefixed(v.institution_id) + len_prefixed(v.institution_name)
        + len_prefixed(v.candidate_id) + len_prefixed(v.candidate_name) + i64_le(v.issued_at);
    let rest = uri_bytes(v.uri) + ext;
    assert(encode_spec(v) + ext =~= front + len_prefixed(v.description) + rest);
    lemma_parse_var_prefix(front, v.description, rest);
}

#[verifier::rlimit(80)]
#[verifier::spinoff_prover]
proof fn lemma_rt_uri(v: CertificateView, ext: Seq<u8>)
    requires
        encodable(v),
    ensures
        parse_uri(
            encode_spec(v) + ext,
            60 + v.institution_id.len() + v.institution_name.len() + v.candidate_id.len()
                + v.candidate_name.len() + v.description.len() as int,
        ) matches Some(pu) && pu.0 == v.uri,
{
    let front = v.issuer + len_prefixed(v.institution_id) + len_prefixed(v.institution_name)
        + len_prefixed(v.candidate_id) + len_prefixed(v.candidate_name) + i64_le(v.issued_at)
        + len_prefixed(v.description);
    let b = encode_spec(v) + ext;
    let pos = front.len() as int;
    assert(b =~= front + uri_bytes(v.uri) + ext);
    match v.uri {
        None => {
            assert(b[pos] == 0u8);
        },
        Some(u) => {
            assert(b[pos] == 1u8);
            assert(b =~= (front + seq![1u8]) + len_prefixed(u) + ext);
            lemma_parse_var_prefix(front + seq![1u8], u, ext);
        },
    }
}

/// Round-trip law: decoding the encoding of a record within its field
/// budgets — with any bytes at all after it — restores the record exactly,
/// provided its string fields hold valid UTF-8.
#[verifier::rlimit(100)]
#[verifier::spinoff_prover]
pub proof fn lemma_round_trip(v: CertificateView, ext: Seq<u8>)
    requires
        encodable(v),
    ensures
        utf8_fields(v) ==> decode_spec(encode_spec(v) + ext) == Some(v),
{
    let b = encode_spec(v) + ext;
    lemma_rt_issuer(v, ext);
    lemma_rt_institution_id(v, ext);
    lemma_rt_institution_name(v, ext);
    lemma_rt_candidate_id(v, ext);
    lemma_rt_candidate_name(v, ext);
    lemma_rt_issued_at(v, ext);
    lemma_i64_le_roundtrip(v.issued_at);
    lemma_rt_description(v, ext);
    lemma_rt_uri(v, ext);
    if utf8_fields(v) {
        assert(decode_spec(b) == Some(v));
    }
}

/// Round-trip law on exactly the encoded bytes: decode(encode(r)) == r.
pub proof fn lemma_decode_encode(v: CertificateView)
    requires
        encodable(v),
    ensures
        utf8_fields(v) ==> decode_spec(encode_spec(v)) == Some(v),
{
    lemma_round_trip(v, Seq::empty());
    assert(encode_spec(v) + Seq::<u8>::empty() =~= encode_spec(v));
}

// ---------------------------------------------------------------------------
// Executable readers
// ---------------------------------------------------------------------------

fn read_bytes(b: &Vec<u8>, pos: usize, n: usize) -> (r: Option<(Vec<u8>, usize)>)
    ensures
        match r {
            Some(v) => parse_bytes(b@, pos as int, n as int) == Some((v.0@, v.1 as int)),
            None => parse_bytes(b@, pos as int, n as int) is None,
        },
{
    if n <= b.len() && pos <= b.len() - n {
        let mut out: Vec<u8> = Vec::new();
        let mut i: usize = 0;
        while i < n
            invariant
                pos + n <= b@.len(),
                b@.len() <= usize::MAX,
                i <= n,
                out@ == b@.subrange(pos as int, pos + i),
            decreases n - i,
        {
            out.push(b[pos + i]);
            proof {
                assert(out@ =~= b@.subrange(pos as int, pos + i + 1));
            }
            i += 1;
        }
        Some((out, pos + n))
    } else {
        None
    }
}

fn read_u32_le(b: &Vec<u8>, pos: usize) -> (r: Option<(u32, usize)>)
    ensures
        match r {
            Some(v) => pos + 4 <= b@.len() && v.0 == u32_from_le(
                b@[pos as int],
                b@[pos + 1],
                b@[pos + 2],
                b@[pos + 3],
            ) && v.1 == pos + 4,
            None => pos + 4 > b@.len(),
        },
{
    if b.len() >= 4 && pos <= b.len() - 4 {
        let n = (b[pos] as u32) | ((b[pos + 1] as u32) << 8) | ((b[pos + 2] as u32) << 16) | ((b[pos
            + 3] as u32) << 24);
        Some((n, pos + 4))
    } else {
        None
    }
}

fn read_var(b: &Vec<u8>, pos: usize) -> (r: Option<(Vec<u8>, usize)>)
    ensures
        match r {
            Some(v) => parse_var(b@, pos as int) == Some((v.0@, v.1 as int)),
            None => parse_var(b@, pos as int) is None,
        },
{
    match read_u32_le(b, pos) {
        None => None,
        Some((n, p)) => read_bytes(b, p, n as usize),
    }
}

fn read_i64_le(b: &Vec<u8>, pos: usize) -> (r: Option<(i64, usize)>)
    ensures
        match r {
            Some(v) => parse_bytes(b@, pos as int, 8) matches Some(pb) && v.0 == i64_from_le(pb.0)
                && v.1 == pb.1,
            None => parse_bytes(b@, pos as int, 8) is None,
        },
{
    if b.len() >= 8 && pos <= b.len() - 8 {
        let u: u64 = (b[pos] as u64) | ((b[pos + 1] as u64) << 8) | ((b[pos + 2] as u64) << 16) | ((
        b[pos + 3] as u64) << 24) | ((b[pos + 4] as u64) << 32) | ((b[pos + 5] as u64) << 40) | ((
        b[pos + 6] as u64) << 48) | ((b[pos + 7] as u64) << 56);
        let n: i64 = #[verifier::truncate] (u as i64);
        proof {
            let s = b@.subrange(pos as int, pos + 8);
            assert(s[0] == b@[pos as int] && s[1] == b@[pos + 1] && s[2] == b@[pos + 2] && s[3]
                == b@[pos + 3] && s[4] == b@[pos + 4] && s[5] == b@[pos + 5] && s[6] == b@[pos + 6]
                && s[7] == b@[pos + 7]);
        }
        Some((n, pos + 8))
    } else {
        None
    }
}

fn read_uri(b: &Vec<u8>, pos: usize) -> (r: Option<(Option<Vec<u8>>, usize)>)
    ensures
        match r {
            Some(v) => parse_uri(b@, pos as int) == Some(
                (
                    match v.0 {
                        Some(u) => Some(u@),
                        None => None::<Seq<u8>>,
                    },
                    v.1 as int,
                ),
            ),
            None => parse_uri(b@, pos as int) is None,
        },
{
    if pos < b.len() {
        let flag = b[pos];
        if flag == 0 {
            Some((None, pos + 1))
        } else if flag == 1 {
            match read_var(b, pos + 1) {
                Some((u, p)) => Some((Some(u), p)),
                None => None,
            }
        } else {
            None
        }
    } else {
        None
    }
}

// ---------------------------------------------------------------------------
// encode and decode
// ---------------------------------------------------------------------------

fn push_var(out: &mut Vec<u8>, b: &Vec<u8>)
    requires
        b@.len() <= u32::MAX,
    ensures
        final(out)@ == old(out)@ + len_prefixed(b@),
{
    push_u32_le(out, b.len() as u32);
    push_bytes(out, b);
    proof {
        assert(out@ =~= old(out)@ + len_prefixed(b@));
    }
}

impl Certificate {
    /// Serialize the record: fields in layout order, every variable field
    /// length-prefixed with its actual encoded length. Succeeds exactly when
    /// the issuer has the fixed identity size and every field stays within
    /// its byte budget; no oversized field is ever silently truncated.
    pub fn encode(&self) -> (r: Result<Vec<u8>, CertError>)
        ensures
            (r is Ok) == encodable(self@),
            r matches Ok(bytes) ==> bytes@ == encode_spec(self@),
            r matches Err(e) ==> e == CertError::InputTooLarge,
    {
        if self.issuer.len() != ISSUER_LEN || self.institution_id.len() > MAX_INSTITUTION_ID_LEN
            || self.institution_name.len() > MAX_INSTITUTION_NAME_LEN || self.candidate_id.len()
            > MAX_CANDIDATE_ID_LEN || self.candidate_name.len() > MAX_CANDIDATE_NAME_LEN
            || self.description.len() > MAX_DESCRIPTION_LEN {
            return Err(CertError::InputTooLarge);
        }
        match &self.uri {
            Some(u) => if u.len() > MAX_URI_LEN {
                return Err(CertError::InputTooLarge);
            },
            None => {},
        }
        let mut out: Vec<u8> = Vec::new();
        push_bytes(&mut out, &self.issuer);
        push_var(&mut out, &self.institution_id);
        push_var(&mut out, &self.institution_name);
        push_var(&mut out, &self.candidate_id);
        push_var(&mut out, &self.candidate_name);
        push_i64_le(&mut out, self.issued_at);
        push_var(&mut out, &self.description);
        match &self.uri {
            None => {
                out.push(0u8);
                proof {
                    assert(out@ =~= encode_spec(self@));
                }
            },
            Some(u) => {
                out.push(1u8);
                push_var(&mut out, u);
                proof {
                    assert(out@ =~= encode_spec(self@));
                }
            },
        }
        Ok(out)
    }

    /// Read a record back from a buffer: the inverse of `encode` on the
    /// buffer's front; bytes past the encoding are ignored. Fails exactly
    /// where the layout does not parse or a string field is invalid UTF-8,
    /// and then reports a decoding error.
    pub fn decode(b: &Vec<u8>) -> (r: Result<Certificate, CertError>)
        ensures
            (r is Ok) == (decode_spec(b@) is Some),
            r matches Ok(c) ==> Some(c@) == decode_spec(b@),
            r matches Err(e) ==> e == CertError::DecodingError,
    {
        let issuer = match read_bytes(b, 0, ISSUER_LEN) {
            Some(v) => v,
            None => { return Err(CertError::DecodingError) },
        };
        let institution_id = match read_var(b, issuer.1) {
            Some(v) => v,
            None => { return Err(CertError::DecodingError) },
        };
        let institution_name = match read_var(b, institution_id.1) {
            Some(v) => v,
            None => { return Err(CertError::DecodingError) },
        };
        let candidate_id = match read_var(b, institution_name.1) {
            Some(v) => v,
            None => { return Err(CertError::DecodingError) },
        };
        let candidate_name = match read_var(b, candidate_id.1) {
            Some(v) => v,
            None => { return Err(CertError::DecodingError) },
        };
        let issued_at = match read_i64_le(b, candidate_name.1) {
            Some(v) => v,
            None => { return Err(CertError::DecodingError) },
        };
        let description = match read_var(b, issued_at.1) {
            Some(v) => v,
            None => { return Err(CertError::DecodingError) },
        };
        let uri = match read_uri(b, description.1) {
            Some(v) => v,
            None => { return Err(CertError::DecodingError) },
        };
        if !is_valid_utf8(&institution_id.0) || !is_valid_utf8(&institution_name.0)
            || !is_valid_utf8(&candidate_id.0) || !is_valid_utf8(&candidate_name.0)
            || !is_valid_utf8(&description.0) {
            return Err(CertError::DecodingError);
        }
        match &uri.0 {
            Some(u) => if !is_valid_utf8(u) {
                return Err(CertError::DecodingError);
            },
            None => {},
        }
        Ok(
            Certificate {
                issuer: issuer.0,
                institution_id: institution_id.0,
                institution_name: institution_name.0,
                candidate_id: candidate_id.0,
                candidate_name: candidate_name.0,
                issued_at: issued_at.0,
                description: description.0,
                uri: uri.0,
            },
        )
    }
}

} // verus!
