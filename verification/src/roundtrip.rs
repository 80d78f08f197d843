//! The codec's round-trip laws: decoding an encoding returns the value that
//! was encoded, wherever the encoding stands in a byte source; and decoding
//! a truncated encoding fails with a transport error.

use vstd::prelude::*;
use vstd::utf8::encode_utf8;
use vstd::utf8::encode_utf8_valid_utf8;
use vstd::utf8::encode_utf8_decode_utf8;

use crate::bytes::be_bytes;
use crate::bytes::be_of;
use crate::bytes::lemma_be_bytes_len;
use crate::bytes::lemma_be_of_be_bytes;
use crate::bytes::pow256;
use crate::decode::spec_decode;
use crate::decode::spec_decode_list;
use crate::decode::spec_decode_pairs;
use crate::encode::spec_enc;
use crate::encode::spec_enc_entries;
use crate::encode::spec_enc_values;
use crate::encode::spec_fits;
use crate::encode::spec_fits_entries;
use crate::encode::spec_fits_values;
use crate::error::FromMsgpackError;
use crate::value::SpecValue;

verus! {

/// A window of a window of a byte source is the matching window of what it
/// holds.
proof fn lemma_sub_sub(bytes: Seq<u8>, pos: nat, enc: Seq<u8>, a: int, b: int)
    requires
        pos + enc.len() <= bytes.len(),
        bytes.subrange(pos as int, (pos + enc.len()) as int) == enc,
        0 <= a <= b <= enc.len(),
    ensures
        bytes.subrange((pos + a) as int, (pos + b) as int) == enc.subrange(a, b),
{
    assert forall|i: int| 0 <= i < b - a implies bytes.subrange((pos + a) as int, (pos + b) as int)[i]
        == enc.subrange(a, b)[i] by {
        assert(bytes.subrange(pos as int, (pos + enc.len()) as int)[a + i] == enc[a + i]);
    }
    assert(bytes.subrange((pos + a) as int, (pos + b) as int) =~= enc.subrange(a, b));
}

/// Wherever a value's encoding stands whole in a byte source, decoding at
/// its start returns exactly that value and consumes exactly its encoding.
pub proof fn lemma_decode_of_encoded(v: SpecValue, bytes: Seq<u8>, pos: nat)
    requires
        spec_fits(v),
        pos + spec_enc(v).len() <= bytes.len(),
        bytes.subrange(pos as int, (pos + spec_enc(v).len()) as int) == spec_enc(v),
    ensures
        spec_decode(bytes, pos) == Ok::<(SpecValue, nat), FromMsgpackError>(
            (v, spec_enc(v).len()),
        ),
    decreases v, 3nat,
{
    match v {
        SpecValue::Nil => lemma_rt_scalar(v, bytes, pos),
        SpecValue::Boolean(_) => lemma_rt_scalar(v, bytes, pos),
        SpecValue::Integer(i) => lemma_roundtrip_int(i, bytes, pos),
        SpecValue::Float(_) => lemma_rt_scalar(v, bytes, pos),
        SpecValue::String(_) => lemma_rt_scalar(v, bytes, pos),
        SpecValue::Object(_) => lemma_rt_scalar(v, bytes, pos),
        SpecValue::Array(s) => lemma_rt_array(s, bytes, pos),
        SpecValue::Dictionary(es) => lemma_rt_dict(es, bytes, pos),
    }
}

/// The non-recursive categories: nil, booleans, floats, strings and
/// handles decode back to themselves.
#[verifier::rlimit(100)]
proof fn lemma_rt_scalar(v: SpecValue, bytes: Seq<u8>, pos: nat)
    requires
        !(v is Integer),
        !(v is Array),
        !(v is Dictionary),
        spec_fits(v),
        pos + spec_enc(v).len() <= bytes.len(),
        bytes.subrange(pos as int, (pos + spec_enc(v).len()) as int) == spec_enc(v),
    ensures
        spec_decode(bytes, pos) == Ok::<(SpecValue, nat), FromMsgpackError>(
            (v, spec_enc(v).len()),
        ),
{
    let enc = spec_enc(v);
    assert(bytes[pos as int] == enc[0]) by {
        assert(bytes.subrange(pos as int, (pos + enc.len()) as int)[0] == enc[0]);
    }
    assert(pow256(1) == 0x100 && pow256(2) == 0x1_0000 && pow256(4) == 0x1_0000_0000 && pow256(8)
        == 0x1_0000_0000_0000_0000) by {
        reveal_with_fuel(pow256, 9);
    }
    match v {
        SpecValue::Float(bits) => {
            lemma_be_bytes_len(bits as nat, 8);
            lemma_sub_sub(bytes, pos, enc, 1, 9);
            assert(enc.subrange(1, 9) =~= be_bytes(bits as nat, 8));
            lemma_be_of_be_bytes(bits as nat, 8);
        },
        SpecValue::String(s) => {
            let u = encode_utf8(s);
            lemma_be_bytes_len(u.len(), 1);
            lemma_be_bytes_len(u.len(), 2);
            lemma_be_bytes_len(u.len(), 4);
            let hdr = crate::encode::spec_str_prefix(u.len());
            encode_utf8_valid_utf8(s);
            encode_utf8_decode_utf8(s);
            lemma_sub_sub(bytes, pos, enc, 0, hdr.len() as int);
            assert(bytes.subrange(pos as int, (pos + hdr.len()) as int) =~= hdr) by {
                assert(enc.subrange(0, hdr.len() as int) =~= hdr);
            }
            lemma_roundtrip_str_prefix(u.len(), bytes, pos);
            let h = hdr.len();
            lemma_sub_sub(bytes, pos, enc, h as int, enc.len() as int);
            assert(enc.subrange(h as int, enc.len() as int) =~= u);
        },
        SpecValue::Object(o) => {
            let payload = crate::encode::spec_handle_payload(o);
            lemma_cast_i64_u64(payload, payload as u64);
            lemma_be_bytes_len((payload as u64) as nat, 8);
            lemma_sub_sub(bytes, pos, enc, 2, 10);
            assert(enc.subrange(2, 10) =~= be_bytes((payload as u64) as nat, 8));
            lemma_be_of_be_bytes((payload as u64) as nat, 8);
            assert(bytes[(pos + 1) as int] == enc[1]) by {
                assert(bytes.subrange(pos as int, (pos + enc.len()) as int)[1] == enc[1]);
            }
        },
        _ => {},
    }
}

/// A sequence's header and element encodings decode back to the sequence.
#[verifier::rlimit(100)]
proof fn lemma_rt_array(s: Seq<SpecValue>, bytes: Seq<u8>, pos: nat)
    requires
        spec_fits(SpecValue::Array(s)),
        pos + spec_enc(SpecValue::Array(s)).len() <= bytes.len(),
        bytes.subrange(pos as int, (pos + spec_enc(SpecValue::Array(s)).len()) as int) == spec_enc(
            SpecValue::Array(s),
        ),
    ensures
        spec_decode(bytes, pos) == Ok::<(SpecValue, nat), FromMsgpackError>(
            (SpecValue::Array(s), spec_enc(SpecValue::Array(s)).len()),
        ),
    decreases s, 2nat,
{
    let enc = spec_enc(SpecValue::Array(s));
    assert(bytes[pos as int] == enc[0]) by {
        assert(bytes.subrange(pos as int, (pos + enc.len()) as int)[0] == enc[0]);
    }
    assert(pow256(2) == 0x1_0000 && pow256(4) == 0x1_0000_0000) by {
        reveal_with_fuel(pow256, 5);
    }
    lemma_be_bytes_len(s.len(), 2);
    lemma_be_bytes_len(s.len(), 4);
    let hdr = crate::encode::spec_array_prefix(s.len());
    let h = hdr.len();
    lemma_sub_sub(bytes, pos, enc, 0, h as int);
    assert(bytes.subrange(pos as int, (pos + h) as int) =~= hdr) by {
        assert(enc.subrange(0, h as int) =~= hdr);
    }
    lemma_roundtrip_array_prefix(s.len(), bytes, pos);
    lemma_sub_sub(bytes, pos, enc, h as int, enc.len() as int);
    assert(enc.subrange(h as int, enc.len() as int) =~= spec_enc_values(s));
    lemma_decode_list_of_encoded(s, bytes, (pos + h) as nat);
}

/// A mapping's header and pair encodings decode back to the mapping.
#[verifier::rlimit(100)]
proof fn lemma_rt_dict(es: Seq<(SpecValue, SpecValue)>, bytes: Seq<u8>, pos: nat)
    requires
        spec_fits(SpecValue::Dictionary(es)),
        pos + spec_enc(SpecValue::Dictionary(es)).len() <= bytes.len(),
        bytes.subrange(pos as int, (pos + spec_enc(SpecValue::Dictionary(es)).len()) as int)
            == spec_enc(SpecValue::Dictionary(es)),
    ensures
        spec_decode(bytes, pos) == Ok::<(SpecValue, nat), FromMsgpackError>(
            (SpecValue::Dictionary(es), spec_enc(SpecValue::Dictionary(es)).len()),
        ),
    decreases es, 2nat,
{
    let enc = spec_enc(SpecValue::Dictionary(es));
    assert(bytes[pos as int] == enc[0]) by {
        assert(bytes.subrange(pos as int, (pos + enc.len()) as int)[0] == enc[0]);
    }
    assert(pow256(2) == 0x1_0000 && pow256(4) == 0x1_0000_0000) by {
        reveal_with_fuel(pow256, 5);
    }
    lemma_be_bytes_len(es.len(), 2);
    lemma_be_bytes_len(es.len(), 4);
    let hdr = crate::encode::spec_map_prefix(es.len());
    let h = hdr.len();
    lemma_sub_sub(bytes, pos, enc, 0, h as int);
    assert(bytes.subrange(pos as int, (pos + h) as int) =~= hdr) by {
        assert(enc.subrange(0, h as int) =~= hdr);
    }
    lemma_roundtrip_map_prefix(es.len(), bytes, pos);
    lemma_sub_sub(bytes, pos, enc, h as int, enc.len() as int);
    assert(enc.subrange(h as int, enc.len() as int) =~= spec_enc_entries(es));
    lemma_decode_pairs_of_encoded(es, bytes, (pos + h) as nat);
}

/// Decoding the encodings of a sequence of values, element after element,
/// returns exactly those values.
pub proof fn lemma_decode_list_of_encoded(s: Seq<SpecValue>, bytes: Seq<u8>, pos: nat)
    requires
        spec_fits_values(s),
        pos + spec_enc_values(s).len() <= bytes.len(),
        bytes.subrange(pos as int, (pos + spec_enc_values(s).len()) as int) == spec_enc_values(s),
    ensures
        spec_decode_list(bytes, pos, s.len()) == Ok::<(Seq<SpecValue>, nat), FromMsgpackError>(
            (s, spec_enc_values(s).len()),
        ),
    decreases s, 1nat,
{
    if s.len() == 0 {
        assert(s =~= Seq::<SpecValue>::empty());
    } else {
        let enc = spec_enc_values(s);
        let e0 = spec_enc(s[0]);
        let rest = s.subrange(1, s.len() as int);
        let enc_rest = spec_enc_values(rest);
        assert(enc == e0 + enc_rest);
        lemma_sub_sub(bytes, pos, enc, 0, e0.len() as int);
        assert(enc.subrange(0, e0.len() as int) =~= e0);
        lemma_decode_of_encoded(s[0], bytes, pos);
        lemma_sub_sub(bytes, pos, enc, e0.len() as int, enc.len() as int);
        assert(enc.subrange(e0.len() as int, enc.len() as int) =~= enc_rest);
        lemma_decode_list_of_encoded(rest, bytes, (pos + e0.len()) as nat);
        assert(seq![s[0]] + rest =~= s);
    }
}

/// Decoding the encodings of a sequence of key/value pairs returns exactly
/// those pairs.
#[verifier::rlimit(60)]
pub proof fn lemma_decode_pairs_of_encoded(es: Seq<(SpecValue, SpecValue)>, bytes: Seq<u8>, pos: nat)
    requires
        spec_fits_entries(es),
        pos + spec_enc_entries(es).len() <= bytes.len(),
        bytes.subrange(pos as int, (pos + spec_enc_entries(es).len()) as int) == spec_enc_entries(es),
    ensures
        spec_decode_pairs(bytes, pos, es.len()) == Ok::<
            (Seq<(SpecValue, SpecValue)>, nat),
            FromMsgpackError,
        >((es, spec_enc_entries(es).len())),
    decreases es, 1nat,
{
    if es.len() == 0 {
        assert(es =~= Seq::<(SpecValue, SpecValue)>::empty());
    } else {
        let enc = spec_enc_entries(es);
        let ek = spec_enc(es[0].0);
        let ev = spec_enc(es[0].1);
        let rest = es.subrange(1, es.len() as int);
        let enc_rest = spec_enc_entries(rest);
        assert(enc == ek + ev + enc_rest);
        lemma_sub_sub(bytes, pos, enc, 0, ek.len() as int);
        assert(enc.subrange(0, ek.len() as int) =~= ek);
        lemma_decode_of_encoded(es[0].0, bytes, pos);
        lemma_sub_sub(bytes, pos, enc, ek.len() as int, (ek.len() + ev.len()) as int);
        assert(enc.subrange(ek.len() as int, (ek.len() + ev.len()) as int) =~= ev);
        lemma_decode_of_encoded(es[0].1, bytes, (pos + ek.len()) as nat);
        lemma_sub_sub(bytes, pos, enc, (ek.len() + ev.len()) as int, enc.len() as int);
        assert(enc.subrange((ek.len() + ev.len()) as int, enc.len() as int) =~= enc_rest);
        lemma_decode_pairs_of_encoded(rest, bytes, (pos + ek.len() + ev.len()) as nat);
        assert(seq![es[0]] + rest =~= es);
    }
}

/// The integer decoder undoes the integer encoder, for every 64-bit value.
#[verifier::rlimit(60)]
proof fn lemma_roundtrip_int(i: i64, bytes: Seq<u8>, pos: nat)
    requires
        pos + crate::encode::spec_enc_int(i).len() <= bytes.len(),
        bytes.subrange(pos as int, (pos + crate::encode::spec_enc_int(i).len()) as int)
            == crate::encode::spec_enc_int(i),
    ensures
        spec_decode(bytes, pos) == Ok::<(SpecValue, nat), FromMsgpackError>(
            (SpecValue::Integer(i), crate::encode::spec_enc_int(i).len()),
        ),
{
    let enc = crate::encode::spec_enc_int(i);
    assert(bytes[pos as int] == enc[0]) by {
        assert(bytes.subrange(pos as int, (pos + enc.len()) as int)[0] == enc[0]);
    }
    assert(pow256(1) == 0x100 && pow256(2) == 0x1_0000 && pow256(4) == 0x1_0000_0000 && pow256(8)
        == 0x1_0000_0000_0000_0000) by {
        reveal_with_fuel(pow256, 9);
    }
    lemma_cast_i64_u64(i, i as u64);
    if 0 <= i < 0x100 {
        lemma_be_bytes_len(i as nat, 1);
        assert(enc.subrange(1, 2) =~= be_bytes(i as nat, 1));
        lemma_roundtrip_int_field(i as nat, 1, bytes, pos, enc);
    } else if 0x100 <= i < 0x1_0000 {
        lemma_be_bytes_len(i as nat, 2);
        assert(enc.subrange(1, 3) =~= be_bytes(i as nat, 2));
        lemma_roundtrip_int_field(i as nat, 2, bytes, pos, enc);
    } else if 0x1_0000 <= i < 0x1_0000_0000 {
        lemma_be_bytes_len(i as nat, 4);
        assert(enc.subrange(1, 5) =~= be_bytes(i as nat, 4));
        lemma_roundtrip_int_field(i as nat, 4, bytes, pos, enc);
    } else if i >= 0x1_0000_0000 {
        lemma_be_bytes_len(i as nat, 8);
        assert(enc.subrange(1, 9) =~= be_bytes(i as nat, 8));
        lemma_roundtrip_int_field(i as nat, 8, bytes, pos, enc);
    } else if -0x80 <= i < 0 {
        lemma_be_bytes_len((i + 0x100) as nat, 1);
        assert(enc.subrange(1, 2) =~= be_bytes((i + 0x100) as nat, 1));
        lemma_roundtrip_int_field((i + 0x100) as nat, 1, bytes, pos, enc);
    } else if -0x8000 <= i < -0x80 {
        lemma_be_bytes_len((i + 0x1_0000) as nat, 2);
        assert(enc.subrange(1, 3) =~= be_bytes((i + 0x1_0000) as nat, 2));
        lemma_roundtrip_int_field((i + 0x1_0000) as nat, 2, bytes, pos, enc);
    } else if -0x8000_0000 <= i < -0x8000 {
        lemma_be_bytes_len((i + 0x1_0000_0000) as nat, 4);
        assert(enc.subrange(1, 5) =~= be_bytes((i + 0x1_0000_0000) as nat, 4));
        lemma_roundtrip_int_field((i + 0x1_0000_0000) as nat, 4, bytes, pos, enc);
    } else {
        lemma_be_bytes_len((i as u64) as nat, 8);
        assert(enc.subrange(1, 9) =~= be_bytes((i as u64) as nat, 8));
        lemma_roundtrip_int_field((i as u64) as nat, 8, bytes, pos, enc);
    }
}

/// The `w`-byte payload after the marker reads back as the number laid out.
proof fn lemma_roundtrip_int_field(u: nat, w: nat, bytes: Seq<u8>, pos: nat, enc: Seq<u8>)
    requires
        u < pow256(w),
        enc.len() == 1 + w,
        enc.subrange(1, 1 + w as int) =~= be_bytes(u, w),
        pos + enc.len() <= bytes.len(),
        bytes.subrange(pos as int, (pos + enc.len()) as int) == enc,
    ensures
        be_of(bytes.subrange((pos + 1) as int, (pos + 1 + w) as int)) == u,
{
    lemma_sub_sub(bytes, pos, enc, 1, 1 + w as int);
    lemma_be_of_be_bytes(u, w);
}

/// The payload window after a `h`-byte prefix holds the prefix's trailing
/// bytes: used to read a big-endian length field back out of the source.
proof fn lemma_prefix_field(n: nat, w: nat, bytes: Seq<u8>, pos: nat, hdr: Seq<u8>)
    requires
        hdr.len() == 1 + w,
        hdr.subrange(1, (1 + w) as int) =~= be_bytes(n, w),
        n < pow256(w),
        pos + hdr.len() <= bytes.len(),
        bytes.subrange(pos as int, (pos + hdr.len()) as int) =~= hdr,
    ensures
        be_of(bytes.subrange((pos + 1) as int, (pos + 1 + w) as int)) == n,
{
    assert(bytes.subrange((pos + 1) as int, (pos + 1 + w) as int) =~= be_bytes(n, w)) by {
        assert forall|i: int|
            0 <= i < w implies bytes.subrange((pos + 1) as int, (pos + 1 + w) as int)[i]
            == be_bytes(n, w)[i] by {
            assert(bytes.subrange(pos as int, (pos + hdr.len()) as int)[1 + i] == hdr[1 + i]);
            assert(hdr.subrange(1, (1 + w) as int)[i] == hdr[1 + i]);
        }
    }
    lemma_be_of_be_bytes(n, w);
}

/// The string length prefix reads back as the payload length.
proof fn lemma_roundtrip_str_prefix(n: nat, bytes: Seq<u8>, pos: nat)
    requires
        n < 0x1_0000_0000,
        pos + crate::encode::spec_str_prefix(n).len() <= bytes.len(),
        bytes.subrange(pos as int, (pos + crate::encode::spec_str_prefix(n).len()) as int)
            =~= crate::encode::spec_str_prefix(n),
    ensures
        n < 32 ==> bytes[pos as int] == 0xa0 + n,
        32 <= n < 0x100 ==> bytes[pos as int] == 0xd9 && be_of(
            bytes.subrange((pos + 1) as int, (pos + 2) as int),
        ) == n,
        0x100 <= n < 0x1_0000 ==> bytes[pos as int] == 0xda && be_of(
            bytes.subrange((pos + 1) as int, (pos + 3) as int),
        ) == n,
        0x1_0000 <= n ==> bytes[pos as int] == 0xdb && be_of(
            bytes.subrange((pos + 1) as int, (pos + 5) as int),
        ) == n,
{
    let hdr = crate::encode::spec_str_prefix(n);
    assert(pow256(1) == 0x100 && pow256(2) == 0x1_0000 && pow256(4) == 0x1_0000_0000) by {
        reveal_with_fuel(pow256, 5);
    }
    assert(bytes[pos as int] == hdr[0]) by {
        assert(bytes.subrange(pos as int, (pos + hdr.len()) as int)[0] == hdr[0]);
    }
    if n < 32 {
    } else if n < 0x100 {
        lemma_be_bytes_len(n, 1);
        lemma_prefix_field(n, 1, bytes, pos, hdr);
    } else if n < 0x1_0000 {
        lemma_be_bytes_len(n, 2);
        lemma_prefix_field(n, 2, bytes, pos, hdr);
    } else {
        lemma_be_bytes_len(n, 4);
        lemma_prefix_field(n, 4, bytes, pos, hdr);
    }
}

/// The sequence length prefix reads back as the element count.
proof fn lemma_roundtrip_array_prefix(n: nat, bytes: Seq<u8>, pos: nat)
    requires
        n < 0x1_0000_0000,
        pos + crate::encode::spec_array_prefix(n).len() <= bytes.len(),
        bytes.subrange(pos as int, (pos + crate::encode::spec_array_prefix(n).len()) as int)
            =~= crate::encode::spec_array_prefix(n),
    ensures
        n < 16 ==> bytes[pos as int] == 0x90 + n,
        16 <= n < 0x1_0000 ==> bytes[pos as int] == 0xdc && be_of(
            bytes.subrange((pos + 1) as int, (pos + 3) as int),
        ) == n,
        0x1_0000 <= n ==> bytes[pos as int] == 0xdd && be_of(
            bytes.subrange((pos + 1) as int, (pos + 5) as int),
        ) == n,
{
    let hdr = crate::encode::spec_array_prefix(n);
    assert(pow256(2) == 0x1_0000 && pow256(4) == 0x1_0000_0000) by {
        reveal_with_fuel(pow256, 5);
    }
    assert(bytes[pos as int] == hdr[0]) by {
        assert(bytes.subrange(pos as int, (pos + hdr.len()) as int)[0] == hdr[0]);
    }
    if n < 16 {
    } else if n < 0x1_0000 {
        lemma_be_bytes_len(n, 2);
        lemma_prefix_field(n, 2, bytes, pos, hdr);
    } else {
        lemma_be_bytes_len(n, 4);
        lemma_prefix_field(n, 4, bytes, pos, hdr);
    }
}

/// The mapping length prefix reads back as the pair count.
proof fn lemma_roundtrip_map_prefix(n: nat, bytes: Seq<u8>, pos: nat)
    requires
        n < 0x1_0000_0000,
        pos + crate::encode::spec_map_prefix(n).len() <= bytes.len(),
        bytes.subrange(pos as int, (pos + crate::encode::spec_map_prefix(n).len()) as int)
            =~= crate::encode::spec_map_prefix(n),
    ensures
        n < 16 ==> bytes[pos as int] == 0x80 + n,
        16 <= n < 0x1_0000 ==> bytes[pos as int] == 0xde && be_of(
            bytes.subrange((pos + 1) as int, (pos + 3) as int),
        ) == n,
        0x1_0000 <= n ==> bytes[pos as int] == 0xdf && be_of(
            bytes.subrange((pos + 1) as int, (pos + 5) as int),
        ) == n,
{
    let hdr = crate::encode::spec_map_prefix(n);
    assert(pow256(2) == 0x1_0000 && pow256(4) == 0x1_0000_0000) by {
        reveal_with_fuel(pow256, 5);
    }
    assert(bytes[pos as int] == hdr[0]) by {
        assert(bytes.subrange(pos as int, (pos + hdr.len()) as int)[0] == hdr[0]);
    }
    if n < 16 {
    } else if n < 0x1_0000 {
        lemma_be_bytes_len(n, 2);
        lemma_prefix_field(n, 2, bytes, pos, hdr);
    } else {
        lemma_be_bytes_len(n, 4);
        lemma_prefix_field(n, 4, bytes, pos, hdr);
    }
}

/// Whether a decode result is a transport failure: the source ended while
/// the marker or a payload was read.
pub open spec fn spec_is_transport_err<T>(r: Result<(T, nat), FromMsgpackError>) -> bool {
    r == Err::<(T, nat), FromMsgpackError>(FromMsgpackError::MarkerRead) || r == Err::<
        (T, nat),
        FromMsgpackError,
    >(FromMsgpackError::Io)
}

/// A window into the surviving part of a cut-short source equals the
/// matching window of the encoding, as long as it lies inside what
/// survived.
proof fn lemma_sub_sub_avail(bytes: Seq<u8>, pos: nat, enc: Seq<u8>, avail: nat, a: int, b: int)
    requires
        pos + avail <= bytes.len(),
        avail <= enc.len(),
        bytes.subrange(pos as int, (pos + avail) as int) == enc.subrange(0, avail as int),
        0 <= a <= b <= avail,
    ensures
        bytes.subrange((pos + a) as int, (pos + b) as int) == enc.subrange(a, b),
{
    assert forall|i: int|
        0 <= i < b - a implies bytes.subrange((pos + a) as int, (pos + b) as int)[i]
        == enc.subrange(a, b)[i] by {
        assert(bytes.subrange(pos as int, (pos + avail) as int)[a + i] == enc.subrange(
            0,
            avail as int,
        )[a + i]);
        assert(bytes.subrange(pos as int, (pos + avail) as int)[a + i] == bytes[pos + a + i]);
        assert(enc.subrange(0, avail as int)[a + i] == enc[a + i]);
        assert(bytes.subrange((pos + a) as int, (pos + b) as int)[i] == bytes[pos + a + i]);
        assert(enc.subrange(a, b)[i] == enc[a + i]);
    }
    assert(bytes.subrange((pos + a) as int, (pos + b) as int) =~= enc.subrange(a, b));
}

/// Wherever a byte source ends before a value's encoding completes, while
/// agreeing with it as far as it lasts, decoding fails with a transport
/// error: never a value, never any other error.
pub proof fn lemma_decode_of_truncated(v: SpecValue, bytes: Seq<u8>, pos: nat)
    requires
        spec_fits(v),
        pos <= bytes.len(),
        bytes.len() < pos + spec_enc(v).len(),
        bytes.subrange(pos as int, bytes.len() as int) == spec_enc(v).subrange(
            0,
            (bytes.len() - pos) as int,
        ),
    ensures
        spec_is_transport_err(spec_decode(bytes, pos)),
    decreases v, 3nat,
{
    match v {
        SpecValue::Array(s) => lemma_trunc_array(s, bytes, pos),
        SpecValue::Dictionary(es) => lemma_trunc_dict(es, bytes, pos),
        _ => lemma_trunc_flat(v, bytes, pos),
    }
}

/// The truncation law for the non-recursive categories.
#[verifier::rlimit(100)]
proof fn lemma_trunc_flat(v: SpecValue, bytes: Seq<u8>, pos: nat)
    requires
        !(v is Array),
        !(v is Dictionary),
        spec_fits(v),
        pos <= bytes.len(),
        bytes.len() < pos + spec_enc(v).len(),
        bytes.subrange(pos as int, bytes.len() as int) == spec_enc(v).subrange(
            0,
            (bytes.len() - pos) as int,
        ),
    ensures
        spec_is_transport_err(spec_decode(bytes, pos)),
{
    let enc = spec_enc(v);
    let avail = (bytes.len() - pos) as nat;
    if avail == 0 {
        return ;
    }
    assert(bytes[pos as int] == enc[0]) by {
        assert(bytes.subrange(pos as int, bytes.len() as int)[0] == enc.subrange(
            0,
            avail as int,
        )[0]);
    }
    assert(pow256(1) == 0x100 && pow256(2) == 0x1_0000 && pow256(4) == 0x1_0000_0000 && pow256(8)
        == 0x1_0000_0000_0000_0000) by {
        reveal_with_fuel(pow256, 9);
    }
    match v {
        SpecValue::Integer(i) => {
            if 0 <= i < 0x100 {
                lemma_be_bytes_len(i as nat, 1);
            } else if 0x100 <= i < 0x1_0000 {
                lemma_be_bytes_len(i as nat, 2);
            } else if 0x1_0000 <= i < 0x1_0000_0000 {
                lemma_be_bytes_len(i as nat, 4);
            } else if i >= 0x1_0000_0000 {
                lemma_be_bytes_len(i as nat, 8);
            } else if -0x80 <= i < 0 {
                lemma_be_bytes_len((i + 0x100) as nat, 1);
            } else if -0x8000 <= i < -0x80 {
                lemma_be_bytes_len((i + 0x1_0000) as nat, 2);
            } else if -0x8000_0000 <= i < -0x8000 {
                lemma_be_bytes_len((i + 0x1_0000_0000) as nat, 4);
            } else {
                lemma_be_bytes_len((i as u64) as nat, 8);
            }
        },
        SpecValue::Float(bits) => {
            lemma_be_bytes_len(bits as nat, 8);
        },
        SpecValue::Object(o) => {
            lemma_be_bytes_len((crate::encode::spec_handle_payload(o) as u64) as nat, 8);
        },
        SpecValue::String(s) => {
            let u = encode_utf8(s);
            lemma_be_bytes_len(u.len(), 1);
            lemma_be_bytes_len(u.len(), 2);
            lemma_be_bytes_len(u.len(), 4);
            let hdr = crate::encode::spec_str_prefix(u.len());
            let h = hdr.len();
            if avail >= h {
                lemma_sub_sub_avail(bytes, pos, enc, avail, 0, h as int);
                assert(bytes.subrange(pos as int, (pos + h) as int) =~= hdr) by {
                    assert(enc.subrange(0, h as int) =~= hdr);
                }
                lemma_roundtrip_str_prefix(u.len(), bytes, pos);
            }
        },
        _ => {},
    }
}

/// The truncation law for sequences: the cut falls in the length prefix or
/// inside some element.
#[verifier::rlimit(100)]
proof fn lemma_trunc_array(s: Seq<SpecValue>, bytes: Seq<u8>, pos: nat)
    requires
        spec_fits(SpecValue::Array(s)),
        pos <= bytes.len(),
        bytes.len() < pos + spec_enc(SpecValue::Array(s)).len(),
        bytes.subrange(pos as int, bytes.len() as int) == spec_enc(SpecValue::Array(s)).subrange(
            0,
            (bytes.len() - pos) as int,
        ),
    ensures
        spec_is_transport_err(spec_decode(bytes, pos)),
    decreases s, 2nat,
{
    let enc = spec_enc(SpecValue::Array(s));
    let avail = (bytes.len() - pos) as nat;
    if avail == 0 {
        return ;
    }
    assert(bytes[pos as int] == enc[0]) by {
        assert(bytes.subrange(pos as int, bytes.len() as int)[0] == enc.subrange(
            0,
            avail as int,
        )[0]);
    }
    assert(pow256(2) == 0x1_0000 && pow256(4) == 0x1_0000_0000) by {
        reveal_with_fuel(pow256, 5);
    }
    lemma_be_bytes_len(s.len(), 2);
    lemma_be_bytes_len(s.len(), 4);
    let hdr = crate::encode::spec_array_prefix(s.len());
    let h = hdr.len();
    if avail >= h {
        lemma_sub_sub_avail(bytes, pos, enc, avail, 0, h as int);
        assert(bytes.subrange(pos as int, (pos + h) as int) =~= hdr) by {
            assert(enc.subrange(0, h as int) =~= hdr);
        }
        lemma_roundtrip_array_prefix(s.len(), bytes, pos);
        let pos2 = (pos + h) as nat;
        assert(bytes.subrange(pos2 as int, bytes.len() as int) == spec_enc_values(s).subrange(
            0,
            (bytes.len() - pos2) as int,
        )) by {
            lemma_sub_sub_avail(bytes, pos, enc, avail, h as int, avail as int);
            assert(enc.subrange(h as int, avail as int) =~= spec_enc_values(s).subrange(
                0,
                (avail - h) as int,
            ));
        }
        lemma_trunc_list(s, bytes, pos2);
    }
}

/// The truncation law for a run of consecutive values: the elements before
/// the cut decode whole; the element holding the cut reports the short
/// read.
#[verifier::rlimit(100)]
proof fn lemma_trunc_list(s: Seq<SpecValue>, bytes: Seq<u8>, pos: nat)
    requires
        spec_fits_values(s),
        pos <= bytes.len(),
        bytes.len() < pos + spec_enc_values(s).len(),
        bytes.subrange(pos as int, bytes.len() as int) == spec_enc_values(s).subrange(
            0,
            (bytes.len() - pos) as int,
        ),
    ensures
        spec_is_transport_err(spec_decode_list(bytes, pos, s.len())),
    decreases s, 1nat,
{
    let enc = spec_enc_values(s);
    let avail = (bytes.len() - pos) as nat;
    let e0 = spec_enc(s[0]);
    let rest = s.subrange(1, s.len() as int);
    let enc_rest = spec_enc_values(rest);
    assert(enc == e0 + enc_rest);
    if avail >= e0.len() {
        lemma_sub_sub_avail(bytes, pos, enc, avail, 0, e0.len() as int);
        assert(enc.subrange(0, e0.len() as int) =~= e0);
        lemma_decode_of_encoded(s[0], bytes, pos);
        let pos2 = (pos + e0.len()) as nat;
        assert(bytes.subrange(pos2 as int, bytes.len() as int) == enc_rest.subrange(
            0,
            (bytes.len() - pos2) as int,
        )) by {
            lemma_sub_sub_avail(bytes, pos, enc, avail, e0.len() as int, avail as int);
            assert(enc.subrange(e0.len() as int, avail as int) =~= enc_rest.subrange(
                0,
                (avail - e0.len()) as int,
            ));
        }
        lemma_trunc_list(rest, bytes, pos2);
    } else {
        assert(bytes.subrange(pos as int, bytes.len() as int) == e0.subrange(0, avail as int))
            by {
            assert(enc.subrange(0, avail as int) =~= e0.subrange(0, avail as int));
        }
        lemma_decode_of_truncated(s[0], bytes, pos);
    }
}

/// The truncation law for mappings: the cut falls in the length prefix or
/// inside some key or value.
#[verifier::rlimit(100)]
proof fn lemma_trunc_dict(es: Seq<(SpecValue, SpecValue)>, bytes: Seq<u8>, pos: nat)
    requires
        spec_fits(SpecValue::Dictionary(es)),
        pos <= bytes.len(),
        bytes.len() < pos + spec_enc(SpecValue::Dictionary(es)).len(),
        bytes.subrange(pos as int, bytes.len() as int) == spec_enc(
            SpecValue::Dictionary(es),
        ).subrange(0, (bytes.len() - pos) as int),
    ensures
        spec_is_transport_err(spec_decode(bytes, pos)),
    decreases es, 2nat,
{
    let enc = spec_enc(SpecValue::Dictionary(es));
    let avail = (bytes.len() - pos) as nat;
    if avail == 0 {
        return ;
    }
    assert(bytes[pos as int] == enc[0]) by {
        assert(bytes.subrange(pos as int, bytes.len() as int)[0] == enc.subrange(
            0,
            avail as int,
        )[0]);
    }
    assert(pow256(2) == 0x1_0000 && pow256(4) == 0x1_0000_0000) by {
        reveal_with_fuel(pow256, 5);
    }
    lemma_be_bytes_len(es.len(), 2);
    lemma_be_bytes_len(es.len(), 4);
    let hdr = crate::encode::spec_map_prefix(es.len());
    let h = hdr.len();
    if avail >= h {
        lemma_sub_sub_avail(bytes, pos, enc, avail, 0, h as int);
        assert(bytes.subrange(pos as int, (pos + h) as int) =~= hdr) by {
            assert(enc.subrange(0, h as int) =~= hdr);
        }
        lemma_roundtrip_map_prefix(es.len(), bytes, pos);
        let pos2 = (pos + h) as nat;
        assert(bytes.subrange(pos2 as int, bytes.len() as int) == spec_enc_entries(es).subrange(
            0,
            (bytes.len() - pos2) as int,
        )) by {
            lemma_sub_sub_avail(bytes, pos, enc, avail, h as int, avail as int);
            assert(enc.subrange(h as int, avail as int) =~= spec_enc_entries(es).subrange(
                0,
                (avail - h) as int,
            ));
        }
        lemma_trunc_pairs(es, bytes, pos2);
    }
}

/// The truncation law for a run of key/value pairs.
#[verifier::rlimit(100)]
proof fn lemma_trunc_pairs(es: Seq<(SpecValue, SpecValue)>, bytes: Seq<u8>, pos: nat)
    requires
        spec_fits_entries(es),
        pos <= bytes.len(),
        bytes.len() < pos + spec_enc_entries(es).len(),
        bytes.subrange(pos as int, bytes.len() as int) == spec_enc_entries(es).subrange(
            0,
            (bytes.len() - pos) as int,
        ),
    ensures
        spec_is_transport_err(spec_decode_pairs(bytes, pos, es.len())),
    decreases es, 1nat,
{
    let enc = spec_enc_entries(es);
    let avail = (bytes.len() - pos) as nat;
    let ek = spec_enc(es[0].0);
    let ev = spec_enc(es[0].1);
    let rest = es.subrange(1, es.len() as int);
    let enc_rest = spec_enc_entries(rest);
    assert(enc == ek + ev + enc_rest);
    if avail < ek.len() {
        assert(bytes.subrange(pos as int, bytes.len() as int) == ek.subrange(0, avail as int))
            by {
            assert(enc.subrange(0, avail as int) =~= ek.subrange(0, avail as int));
        }
        lemma_decode_of_truncated(es[0].0, bytes, pos);
    } else {
        lemma_sub_sub_avail(bytes, pos, enc, avail, 0, ek.len() as int);
        assert(enc.subrange(0, ek.len() as int) =~= ek);
        lemma_decode_of_encoded(es[0].0, bytes, pos);
        let posv = (pos + ek.len()) as nat;
        if avail < ek.len() + ev.len() {
            assert(bytes.subrange(posv as int, bytes.len() as int) == ev.subrange(
                0,
                (bytes.len() - posv) as int,
            )) by {
                lemma_sub_sub_avail(bytes, pos, enc, avail, ek.len() as int, avail as int);
                assert(enc.subrange(ek.len() as int, avail as int) =~= ev.subrange(
                    0,
                    (avail - ek.len()) as int,
                ));
            }
            lemma_decode_of_truncated(es[0].1, bytes, posv);
        } else {
            lemma_sub_sub_avail(bytes, pos, enc, avail, ek.len() as int, (ek.len()
                + ev.len()) as int);
            assert(enc.subrange(ek.len() as int, (ek.len() + ev.len()) as int) =~= ev);
            lemma_decode_of_encoded(es[0].1, bytes, posv);
            let pos2 = (pos + ek.len() + ev.len()) as nat;
            assert(bytes.subrange(pos2 as int, bytes.len() as int) == enc_rest.subrange(
                0,
                (bytes.len() - pos2) as int,
            )) by {
                lemma_sub_sub_avail(
                    bytes,
                    pos,
                    enc,
                    avail,
                    (ek.len() + ev.len()) as int,
                    avail as int,
                );
                assert(enc.subrange((ek.len() + ev.len()) as int, avail as int)
                    =~= enc_rest.subrange(0, (avail - ek.len() - ev.len()) as int));
            }
            lemma_trunc_pairs(rest, bytes, pos2);
        }
    }
}

/// A truncated byte stream fails decode with a transport error, never a
/// value and never any other error: decoding any proper prefix of a valid
/// encoding reports the short read.
pub proof fn lemma_truncated_decode(v: SpecValue, k: int)
    requires
        spec_fits(v),
        0 <= k < spec_enc(v).len(),
    ensures
        spec_is_transport_err(spec_decode(spec_enc(v).subrange(0, k), 0)),
{
    let cut = spec_enc(v).subrange(0, k);
    assert(cut.subrange(0, k) =~= cut);
    assert(cut.subrange(0, cut.len() as int) =~= spec_enc(v).subrange(0, k));
    lemma_decode_of_truncated(v, cut, 0);
}

/// Round trip: for every value within the wire format's length classes,
/// decoding its encoding returns the value itself, consuming it whole.
pub proof fn lemma_round_trip(v: SpecValue)
    requires
        spec_fits(v),
    ensures
        spec_decode(spec_enc(v), 0) == Ok::<(SpecValue, nat), FromMsgpackError>(
            (v, spec_enc(v).len()),
        ),
{
    let enc = spec_enc(v);
    assert(enc.subrange(0, enc.len() as int) =~= enc);
    lemma_decode_of_encoded(v, enc, 0);
}

/// The two's-complement correspondence between the 64-bit signed and
/// unsigned readings of the same bits.
proof fn lemma_cast_i64_u64(i: i64, u: u64)
    requires
        u == i as u64,
    ensures
        i >= 0 ==> u == i,
        i < 0 ==> u as int == i + 0x1_0000_0000_0000_0000,
        u as i64 == i,
{
    assert(i >= 0 ==> u == i) by (bit_vector)
        requires
            u == i as u64,
    ;
    assert(i < 0 ==> u as int == i + 0x1_0000_0000_0000_0000) by (bit_vector)
        requires
            u == i as u64,
    ;
    assert(u as i64 == i) by (bit_vector)
        requires
            u == i as u64,
    ;
}

} // verus!
