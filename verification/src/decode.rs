//! The decoder: from wire bytes back to the value model.
//!
//! Given a byte source positioned at a value boundary, the decoder reads the
//! marker byte and dispatches by category. Every branch that does not match
//! its expected category fails with a structural mismatch carrying the
//! expected category and the marker observed; a short source fails with a
//! transport error; a non-UTF-8 string payload fails with an encoding error.
//! Every failure is terminal: no partial value is handed out.

use vstd::prelude::*;
use vstd::utf8::decode_utf8;
use vstd::utf8::valid_utf8;

use crate::bytes::be_of;
use crate::bytes::pow256;
use crate::error::FromMsgpackError;
use crate::floatbits::spec_f32_to_f64_bits;
use crate::marker::Marker;
use crate::marker::spec_marker_of;
use crate::value::BasicType;
use crate::value::BasicTypeKind;
use crate::value::Buffer;
use crate::value::SpecValue;
use crate::value::SpecialType;
use crate::value::Tabpage;
use crate::value::Window;

verus! {

/// How many bytes stand between `pos` and the end of the source.
pub open spec fn spec_rem(bytes: Seq<u8>, pos: nat) -> nat {
    if pos <= bytes.len() {
        (bytes.len() - pos) as nat
    } else {
        0
    }
}

/// The two's-complement reading of a `w`-byte unsigned value.
pub open spec fn spec_sint_of(u: nat, w: nat) -> int {
    if u < pow256(w) / 2 {
        u as int
    } else {
        u - pow256(w)
    }
}

/// Reads a `w`-byte big-endian unsigned integer payload at `pos`, narrowed
/// into the 64-bit signed representation; `1 + w` bytes consumed in all.
pub open spec fn spec_read_uint(bytes: Seq<u8>, pos: nat, w: nat) -> Result<
    (i64, nat),
    FromMsgpackError,
> {
    if pos + w <= bytes.len() {
        Ok(((be_of(bytes.subrange(pos as int, (pos + w) as int)) as u64) as i64, (1 + w) as nat))
    } else {
        Err(FromMsgpackError::Io)
    }
}

/// Reads a `w`-byte big-endian two's-complement integer payload at `pos`,
/// widened into the 64-bit signed representation.
pub open spec fn spec_read_sint(bytes: Seq<u8>, pos: nat, w: nat) -> Result<
    (i64, nat),
    FromMsgpackError,
> {
    if pos + w <= bytes.len() {
        Ok((spec_sint_of(be_of(bytes.subrange(pos as int, (pos + w) as int)), w) as i64, (1
            + w) as nat))
    } else {
        Err(FromMsgpackError::Io)
    }
}

/// Reads `n` string payload bytes at `pos` and validates them as UTF-8;
/// `hdr` bytes of marker and length prefix came before.
pub open spec fn spec_read_str_payload(bytes: Seq<u8>, pos: nat, n: nat, hdr: nat) -> Result<
    (Seq<char>, nat),
    FromMsgpackError,
> {
    if pos + n <= bytes.len() {
        let u = bytes.subrange(pos as int, (pos + n) as int);
        if valid_utf8(u) {
            Ok((decode_utf8(u), (hdr + n) as nat))
        } else {
            Err(FromMsgpackError::Utf8)
        }
    } else {
        Err(FromMsgpackError::Io)
    }
}

/// Decodes a boolean: exactly the two boolean marker forms are accepted.
pub open spec fn spec_decode_bool(bytes: Seq<u8>, pos: nat) -> Result<
    (bool, nat),
    FromMsgpackError,
> {
    if pos >= bytes.len() {
        Err(FromMsgpackError::MarkerRead)
    } else {
        let m = spec_marker_of(bytes[pos as int]);
        match m {
            Marker::True => Ok((true, 1)),
            Marker::False => Ok((false, 1)),
            _ => Err(FromMsgpackError::Marker { expected: BasicTypeKind::Boolean, actual: m }),
        }
    }
}

/// Decodes an integer: the eight marker/width combinations, every one
/// normalized into the single 64-bit signed representation.
pub open spec fn spec_decode_i64(bytes: Seq<u8>, pos: nat) -> Result<
    (i64, nat),
    FromMsgpackError,
> {
    if pos >= bytes.len() {
        Err(FromMsgpackError::MarkerRead)
    } else {
        let m = spec_marker_of(bytes[pos as int]);
        match m {
            Marker::U8 => spec_read_uint(bytes, pos + 1, 1),
            Marker::U16 => spec_read_uint(bytes, pos + 1, 2),
            Marker::U32 => spec_read_uint(bytes, pos + 1, 4),
            Marker::U64 => spec_read_uint(bytes, pos + 1, 8),
            Marker::I8 => spec_read_sint(bytes, pos + 1, 1),
            Marker::I16 => spec_read_sint(bytes, pos + 1, 2),
            Marker::I32 => spec_read_sint(bytes, pos + 1, 4),
            Marker::I64 => spec_read_sint(bytes, pos + 1, 8),
            _ => Err(FromMsgpackError::Marker { expected: BasicTypeKind::Integer, actual: m }),
        }
    }
}

/// Decodes a float: both wire widths, normalized to the double-precision
/// bit pattern.
pub open spec fn spec_decode_float_bits(bytes: Seq<u8>, pos: nat) -> Result<
    (u64, nat),
    FromMsgpackError,
> {
    if pos >= bytes.len() {
        Err(FromMsgpackError::MarkerRead)
    } else {
        let m = spec_marker_of(bytes[pos as int]);
        match m {
            Marker::F32 => if pos + 5 <= bytes.len() {
                Ok(
                    (
                        spec_f32_to_f64_bits(
                            be_of(bytes.subrange((pos + 1) as int, (pos + 5) as int)) as u32,
                        ),
                        5,
                    ),
                )
            } else {
                Err(FromMsgpackError::Io)
            },
            Marker::F64 => if pos + 9 <= bytes.len() {
                Ok((be_of(bytes.subrange((pos + 1) as int, (pos + 9) as int)) as u64, 9))
            } else {
                Err(FromMsgpackError::Io)
            },
            _ => Err(FromMsgpackError::Marker { expected: BasicTypeKind::Float, actual: m }),
        }
    }
}

/// Decodes a string: the four length-encoding forms, then exactly that many
/// payload bytes validated as UTF-8.
pub open spec fn spec_decode_string(bytes: Seq<u8>, pos: nat) -> Result<
    (Seq<char>, nat),
    FromMsgpackError,
> {
    if pos >= bytes.len() {
        Err(FromMsgpackError::MarkerRead)
    } else {
        let m = spec_marker_of(bytes[pos as int]);
        match m {
            Marker::FixStr(n) => spec_read_str_payload(bytes, pos + 1, n as nat, 1),
            Marker::Str8 => if pos + 2 <= bytes.len() {
                spec_read_str_payload(bytes, pos + 2, bytes[(pos + 1) as int] as nat, 2)
            } else {
                Err(FromMsgpackError::Io)
            },
            Marker::Str16 => if pos + 3 <= bytes.len() {
                spec_read_str_payload(bytes, pos + 3, be_of(bytes.subrange((pos + 1) as int, (pos + 3) as int)), 3)
            } else {
                Err(FromMsgpackError::Io)
            },
            Marker::Str32 => if pos + 5 <= bytes.len() {
                spec_read_str_payload(bytes, pos + 5, be_of(bytes.subrange((pos + 1) as int, (pos + 5) as int)), 5)
            } else {
                Err(FromMsgpackError::Io)
            },
            _ => Err(FromMsgpackError::Marker { expected: BasicTypeKind::String, actual: m }),
        }
    }
}

/// Decodes a handle: an extension-tagged fixed-width 8-byte big-endian
/// payload; the tag selects the kind; an unrecognized tag is a structural
/// mismatch.
pub open spec fn spec_decode_special(bytes: Seq<u8>, pos: nat) -> Result<
    (SpecialType, nat),
    FromMsgpackError,
> {
    if pos >= bytes.len() {
        Err(FromMsgpackError::MarkerRead)
    } else {
        let m = spec_marker_of(bytes[pos as int]);
        match m {
            Marker::FixExt8 => if pos + 10 <= bytes.len() {
                let tag = bytes[(pos + 1) as int] as i8;
                let payload = (be_of(bytes.subrange((pos + 2) as int, (pos + 10) as int)) as u64) as i64;
                if tag == 0 {
                    Ok((SpecialType::Buffer(Buffer { bufnr: payload }), 10))
                } else if tag == 1 {
                    Ok((SpecialType::Window(Window { window_id: payload }), 10))
                } else if tag == 2 {
                    Ok((SpecialType::Tabpage(Tabpage { handle: payload }), 10))
                } else {
                    Err(FromMsgpackError::Marker { expected: BasicTypeKind::Object, actual: m })
                }
            } else {
                Err(FromMsgpackError::Io)
            },
            _ => Err(FromMsgpackError::Marker { expected: BasicTypeKind::Object, actual: m }),
        }
    }
}

/// The category reported when the generic decoder meets a marker form it
/// does not accept: the fixed-integer forms report the integer category,
/// the binary forms the string category, the other extension forms the
/// handle category, and the reserved byte the nil category.
pub open spec fn spec_unsupported_kind(m: Marker) -> BasicTypeKind {
    match m {
        Marker::FixPos(_) => BasicTypeKind::Integer,
        Marker::FixNeg(_) => BasicTypeKind::Integer,
        Marker::Bin8 => BasicTypeKind::String,
        Marker::Bin16 => BasicTypeKind::String,
        Marker::Bin32 => BasicTypeKind::String,
        Marker::Ext8 => BasicTypeKind::Object,
        Marker::Ext16 => BasicTypeKind::Object,
        Marker::Ext32 => BasicTypeKind::Object,
        Marker::FixExt1 => BasicTypeKind::Object,
        Marker::FixExt2 => BasicTypeKind::Object,
        Marker::FixExt4 => BasicTypeKind::Object,
        Marker::FixExt16 => BasicTypeKind::Object,
        _ => BasicTypeKind::Nil,
    }
}

/// Decodes one value of any category, dispatching on the marker byte.
pub open spec fn spec_decode(bytes: Seq<u8>, pos: nat) -> Result<
    (SpecValue, nat),
    FromMsgpackError,
>
    decreases spec_rem(bytes, pos), 0nat, 1nat,
{
    if pos >= bytes.len() {
        Err(FromMsgpackError::MarkerRead)
    } else {
        let m = spec_marker_of(bytes[pos as int]);
        match m {
            Marker::Nil => Ok((SpecValue::Nil, 1)),
            Marker::True => Ok((SpecValue::Boolean(true), 1)),
            Marker::False => Ok((SpecValue::Boolean(false), 1)),
            Marker::U8 => spec_wrap_int(spec_read_uint(bytes, pos + 1, 1)),
            Marker::U16 => spec_wrap_int(spec_read_uint(bytes, pos + 1, 2)),
            Marker::U32 => spec_wrap_int(spec_read_uint(bytes, pos + 1, 4)),
            Marker::U64 => spec_wrap_int(spec_read_uint(bytes, pos + 1, 8)),
            Marker::I8 => spec_wrap_int(spec_read_sint(bytes, pos + 1, 1)),
            Marker::I16 => spec_wrap_int(spec_read_sint(bytes, pos + 1, 2)),
            Marker::I32 => spec_wrap_int(spec_read_sint(bytes, pos + 1, 4)),
            Marker::I64 => spec_wrap_int(spec_read_sint(bytes, pos + 1, 8)),
            Marker::F32 => spec_wrap_float(spec_decode_float_bits(bytes, pos)),
            Marker::F64 => spec_wrap_float(spec_decode_float_bits(bytes, pos)),
            Marker::FixStr(_) => spec_wrap_string(spec_decode_string(bytes, pos)),
            Marker::Str8 => spec_wrap_string(spec_decode_string(bytes, pos)),
            Marker::Str16 => spec_wrap_string(spec_decode_string(bytes, pos)),
            Marker::Str32 => spec_wrap_string(spec_decode_string(bytes, pos)),
            Marker::FixExt8 => spec_wrap_special(spec_decode_special(bytes, pos)),
            Marker::FixArray(n) => match spec_decode_list(bytes, pos + 1, n as nat) {
                Ok(res) => Ok((SpecValue::Array(res.0), (1 + res.1) as nat)),
                Err(e) => Err(e),
            },
            Marker::Array16 => if pos + 3 <= bytes.len() {
                match spec_decode_list(bytes, pos + 3, be_of(bytes.subrange((pos + 1) as int, (pos + 3) as int))) {
                    Ok(res) => Ok((SpecValue::Array(res.0), (3 + res.1) as nat)),
                    Err(e) => Err(e),
                }
            } else {
                Err(FromMsgpackError::Io)
            },
            Marker::Array32 => if pos + 5 <= bytes.len() {
                match spec_decode_list(bytes, pos + 5, be_of(bytes.subrange((pos + 1) as int, (pos + 5) as int))) {
                    Ok(res) => Ok((SpecValue::Array(res.0), (5 + res.1) as nat)),
                    Err(e) => Err(e),
                }
            } else {
                Err(FromMsgpackError::Io)
            },
            Marker::FixMap(n) => match spec_decode_pairs(bytes, pos + 1, n as nat) {
                Ok(res) => Ok((SpecValue::Dictionary(res.0), (1 + res.1) as nat)),
                Err(e) => Err(e),
            },
            Marker::Map16 => if pos + 3 <= bytes.len() {
                match spec_decode_pairs(bytes, pos + 3, be_of(bytes.subrange((pos + 1) as int, (pos + 3) as int))) {
                    Ok(res) => Ok((SpecValue::Dictionary(res.0), (3 + res.1) as nat)),
                    Err(e) => Err(e),
                }
            } else {
                Err(FromMsgpackError::Io)
            },
            Marker::Map32 => if pos + 5 <= bytes.len() {
                match spec_decode_pairs(bytes, pos + 5, be_of(bytes.subrange((pos + 1) as int, (pos + 5) as int))) {
                    Ok(res) => Ok((SpecValue::Dictionary(res.0), (5 + res.1) as nat)),
                    Err(e) => Err(e),
                }
            } else {
                Err(FromMsgpackError::Io)
            },
            _ => Err(
                FromMsgpackError::Marker { expected: spec_unsupported_kind(m), actual: m },
            ),
        }
    }
}

/// Decodes `n` consecutive values.
pub open spec fn spec_decode_list(bytes: Seq<u8>, pos: nat, n: nat) -> Result<
    (Seq<SpecValue>, nat),
    FromMsgpackError,
>
    decreases spec_rem(bytes, pos), n, 0nat,
{
    if n == 0 {
        Ok((Seq::empty(), 0))
    } else {
        match spec_decode(bytes, pos) {
            Err(e) => Err(e),
            Ok((v, c)) => match spec_decode_list(bytes, pos + c, (n - 1) as nat) {
                Err(e) => Err(e),
                Ok((s, c2)) => Ok((seq![v] + s, (c + c2) as nat)),
            },
        }
    }
}

/// Decodes `n` consecutive key/value pairs, key first per entry.
pub open spec fn spec_decode_pairs(bytes: Seq<u8>, pos: nat, n: nat) -> Result<
    (Seq<(SpecValue, SpecValue)>, nat),
    FromMsgpackError,
>
    decreases spec_rem(bytes, pos), n, 0nat,
{
    if n == 0 {
        Ok((Seq::empty(), 0))
    } else {
        match spec_decode(bytes, pos) {
            Err(e) => Err(e),
            Ok((k, c1)) => match spec_decode(bytes, pos + c1) {
                Err(e) => Err(e),
                Ok((v, c2)) => match spec_decode_pairs(bytes, pos + c1 + c2, (n - 1) as nat) {
                    Err(e) => Err(e),
                    Ok((s, c3)) => Ok((seq![(k, v)] + s, (c1 + c2 + c3) as nat)),
                },
            },
        }
    }
}

/// Wraps a decoded integer into the value model.
pub open spec fn spec_wrap_int(r: Result<(i64, nat), FromMsgpackError>) -> Result<
    (SpecValue, nat),
    FromMsgpackError,
> {
    match r {
        Ok((i, c)) => Ok((SpecValue::Integer(i), c)),
        Err(e) => Err(e),
    }
}

/// Wraps a decoded float bit pattern into the value model.
pub open spec fn spec_wrap_float(r: Result<(u64, nat), FromMsgpackError>) -> Result<
    (SpecValue, nat),
    FromMsgpackError,
> {
    match r {
        Ok((bits, c)) => Ok((SpecValue::Float(bits), c)),
        Err(e) => Err(e),
    }
}

/// Wraps a decoded string into the value model.
pub open spec fn spec_wrap_string(r: Result<(Seq<char>, nat), FromMsgpackError>) -> Result<
    (SpecValue, nat),
    FromMsgpackError,
> {
    match r {
        Ok((s, c)) => Ok((SpecValue::String(s), c)),
        Err(e) => Err(e),
    }
}

/// Wraps a decoded handle into the value model.
pub open spec fn spec_wrap_special(r: Result<(SpecialType, nat), FromMsgpackError>) -> Result<
    (SpecValue, nat),
    FromMsgpackError,
> {
    match r {
        Ok((o, c)) => Ok((SpecValue::Object(o), c)),
        Err(e) => Err(e),
    }
}

/// `256^w`, for widths below eight bytes.
fn pow256_u64(w: usize) -> (r: u64)
    requires
        w <= 7,
    ensures
        r as nat == pow256(w as nat),
    decreases w,
{
    if w == 0 {
        1
    } else {
        let half = pow256_u64(w - 1);
        proof {
            crate::bytes::lemma_pow256_mono(w as nat, 7);
            assert(pow256(7) == 0x100_0000_0000_0000) by {
                reveal_with_fuel(pow256, 8);
            };
        }
        256 * half
    }
}

/// Reads the byte at `pos`; fails with a transport error at the end of the
/// source.
pub fn read_u8(bytes: &Vec<u8>, pos: usize) -> (r: Result<(u8, usize), FromMsgpackError>)
    ensures
        match r {
            Ok((b, p2)) => pos < bytes@.len() && b == bytes@[pos as int] && p2 == pos + 1,
            Err(e) => pos >= bytes@.len() && e == FromMsgpackError::Io,
        },
{
    if pos < bytes.len() {
        Ok((bytes[pos], pos + 1))
    } else {
        Err(FromMsgpackError::Io)
    }
}

/// Reads the big-endian 16-bit value at `pos`; fails with a transport error
/// on a short source.
pub fn read_u16(bytes: &Vec<u8>, pos: usize) -> (r: Result<(u16, usize), FromMsgpackError>)
    ensures
        match r {
            Ok((n, p2)) => pos + 2 <= bytes@.len() && n as nat == be_of(
                bytes@.subrange(pos as int, pos + 2),
            ) && p2 == pos + 2,
            Err(e) => pos + 2 > bytes@.len() && e == FromMsgpackError::Io,
        },
{
    if pos <= bytes.len() && 2 <= bytes.len() - pos {
        let n = crate::bytes::read_be(bytes, pos, 2);
        proof {
            crate::bytes::lemma_be_of_bound(bytes@.subrange(pos as int, pos + 2));
            assert(pow256(2) == 0x1_0000) by {
                reveal_with_fuel(pow256, 3);
            };
        }
        Ok((n as u16, pos + 2))
    } else {
        Err(FromMsgpackError::Io)
    }
}

/// Reads the big-endian 32-bit value at `pos`; fails with a transport error
/// on a short source.
pub fn read_u32(bytes: &Vec<u8>, pos: usize) -> (r: Result<(u32, usize), FromMsgpackError>)
    ensures
        match r {
            Ok((n, p2)) => pos + 4 <= bytes@.len() && n as nat == be_of(
                bytes@.subrange(pos as int, pos + 4),
            ) && p2 == pos + 4,
            Err(e) => pos + 4 > bytes@.len() && e == FromMsgpackError::Io,
        },
{
    if pos <= bytes.len() && 4 <= bytes.len() - pos {
        let n = crate::bytes::read_be(bytes, pos, 4);
        proof {
            crate::bytes::lemma_be_of_bound(bytes@.subrange(pos as int, pos + 4));
            assert(pow256(4) == 0x1_0000_0000) by {
                reveal_with_fuel(pow256, 5);
            };
        }
        Ok((n as u32, pos + 4))
    } else {
        Err(FromMsgpackError::Io)
    }
}

/// Relies on `String::from_utf8`: it accepts exactly the byte strings that
/// are valid UTF-8 and decodes them to the character sequence they encode.
#[verifier::external_body]
fn vec_to_string(v: Vec<u8>) -> (r: Option<String>)
    ensures
        r is Some <==> valid_utf8(v@),
        r is Some ==> r->Some_0@ == decode_utf8(v@),
{
    match String::from_utf8(v) {
        Ok(s) => Some(s),
        Err(_) => None,
    }
}

/// Reads a `w`-byte unsigned payload at `p`, narrowed into the 64-bit
/// signed representation.
fn read_uint_payload(bytes: &Vec<u8>, p: usize, w: usize) -> (r: Result<
    (i64, usize),
    FromMsgpackError,
>)
    requires
        p <= bytes@.len(),
        1 <= w <= 8,
    ensures
        match r {
            Ok((i, p2)) => p2 == p + w && p + w <= bytes@.len() && spec_read_uint(
                bytes@,
                p as nat,
                w as nat,
            ) == Ok::<(i64, nat), FromMsgpackError>((i, (1 + w) as nat)),
            Err(e) => spec_read_uint(bytes@, p as nat, w as nat) == Err::<
                (i64, nat),
                FromMsgpackError,
            >(e),
        },
{
    if w <= bytes.len() - p {
        let u = crate::bytes::read_be(bytes, p, w);
        Ok((u as i64, p + w))
    } else {
        Err(FromMsgpackError::Io)
    }
}

/// Reads a `w`-byte two's-complement payload at `p`, widened into the
/// 64-bit signed representation.
fn read_sint_payload(bytes: &Vec<u8>, p: usize, w: usize) -> (r: Result<
    (i64, usize),
    FromMsgpackError,
>)
    requires
        p <= bytes@.len(),
        1 <= w <= 8,
    ensures
        match r {
            Ok((i, p2)) => p2 == p + w && p + w <= bytes@.len() && spec_read_sint(
                bytes@,
                p as nat,
                w as nat,
            ) == Ok::<(i64, nat), FromMsgpackError>((i, (1 + w) as nat)),
            Err(e) => spec_read_sint(bytes@, p as nat, w as nat) == Err::<
                (i64, nat),
                FromMsgpackError,
            >(e),
        },
{
    if w <= bytes.len() - p {
        let u = crate::bytes::read_be(bytes, p, w);
        proof {
            crate::bytes::lemma_be_of_bound(bytes@.subrange(p as int, p + w));
        }
        let v: i64 = if w == 8 {
            proof {
                assert(pow256(8) == 0x1_0000_0000_0000_0000) by {
                    reveal_with_fuel(pow256, 9);
                };
            }
            if u < 0x8000_0000_0000_0000 {
                u as i64
            } else {
                let m_up = u64::MAX - u;
                -(m_up as i64) - 1
            }
        } else {
            let pw = pow256_u64(w);
            if u < pw / 2 {
                u as i64
            } else {
                proof {
                    crate::bytes::lemma_pow256_mono(w as nat, 7);
                    assert(pow256(7) == 0x100_0000_0000_0000) by {
                        reveal_with_fuel(pow256, 8);
                    };
                }
                (u as i64) - (pw as i64)
            }
        };
        Ok((v, p + w))
    } else {
        Err(FromMsgpackError::Io)
    }
}

/// Reads `n` payload bytes at `p` and validates them as UTF-8.
#[verifier::loop_isolation(false)]
fn read_str_data(bytes: &Vec<u8>, p: usize, n: usize) -> (r: Result<
    (String, usize),
    FromMsgpackError,
>)
    requires
        p <= bytes@.len(),
    ensures
        match r {
            Ok((s, p2)) => p + n <= bytes@.len() && p2 == p + n && valid_utf8(
                bytes@.subrange(p as int, p + n),
            ) && s@ == decode_utf8(bytes@.subrange(p as int, p + n)),
            Err(e) => {
                ||| (e == FromMsgpackError::Io && p + n > bytes@.len())
                ||| (e == FromMsgpackError::Utf8 && p + n <= bytes@.len() && !valid_utf8(
                    bytes@.subrange(p as int, p + n),
                ))
            },
        },
{
    if n <= bytes.len() - p {
        let mut buf: Vec<u8> = Vec::new();
        let mut i: usize = 0;
        proof {
            assert(buf@ =~= bytes@.subrange(p as int, p as int));
        }
        while i < n
            invariant
                i <= n,
                p + n <= bytes@.len(),
                buf@ == bytes@.subrange(p as int, p + i),
            decreases n - i,
        {
            buf.push(bytes[p + i]);
            proof {
                assert(buf@ =~= bytes@.subrange(p as int, p + i + 1));
            }
            i = i + 1;
        }
        match vec_to_string(buf) {
            Some(s) => Ok((s, p + n)),
            None => Err(FromMsgpackError::Utf8),
        }
    } else {
        Err(FromMsgpackError::Io)
    }
}

/// Decodes a boolean at `pos`.
pub fn decode_bool_at(bytes: &Vec<u8>, pos: usize) -> (r: Result<(bool, usize), FromMsgpackError>)
    ensures
        match r {
            Ok((v, p2)) => pos < p2 <= bytes@.len() && spec_decode_bool(bytes@, pos as nat)
                == Ok::<(bool, nat), FromMsgpackError>((v, (p2 - pos) as nat)),
            Err(e) => spec_decode_bool(bytes@, pos as nat) == Err::<
                (bool, nat),
                FromMsgpackError,
            >(e),
        },
{
    if pos >= bytes.len() {
        return Err(FromMsgpackError::MarkerRead);
    }
    let m = crate::marker::marker_of(bytes[pos]);
    match m {
        Marker::True => Ok((true, pos + 1)),
        Marker::False => Ok((false, pos + 1)),
        _ => Err(FromMsgpackError::Marker { expected: BasicTypeKind::Boolean, actual: m }),
    }
}

/// Decodes an integer at `pos`, from any of the eight width classes.
pub fn decode_i64_at(bytes: &Vec<u8>, pos: usize) -> (r: Result<(i64, usize), FromMsgpackError>)
    ensures
        match r {
            Ok((v, p2)) => pos < p2 <= bytes@.len() && spec_decode_i64(bytes@, pos as nat)
                == Ok::<(i64, nat), FromMsgpackError>((v, (p2 - pos) as nat)),
            Err(e) => spec_decode_i64(bytes@, pos as nat) == Err::<
                (i64, nat),
                FromMsgpackError,
            >(e),
        },
{
    if pos >= bytes.len() {
        return Err(FromMsgpackError::MarkerRead);
    }
    let m = crate::marker::marker_of(bytes[pos]);
    match m {
        Marker::U8 => read_uint_payload(bytes, pos + 1, 1),
        Marker::U16 => read_uint_payload(bytes, pos + 1, 2),
        Marker::U32 => read_uint_payload(bytes, pos + 1, 4),
        Marker::U64 => read_uint_payload(bytes, pos + 1, 8),
        Marker::I8 => read_sint_payload(bytes, pos + 1, 1),
        Marker::I16 => read_sint_payload(bytes, pos + 1, 2),
        Marker::I32 => read_sint_payload(bytes, pos + 1, 4),
        Marker::I64 => read_sint_payload(bytes, pos + 1, 8),
        _ => Err(FromMsgpackError::Marker { expected: BasicTypeKind::Integer, actual: m }),
    }
}

/// Decodes a float at `pos`, normalized to its double-precision bit
/// pattern.
pub fn decode_float_at(bytes: &Vec<u8>, pos: usize) -> (r: Result<(u64, usize), FromMsgpackError>)
    ensures
        match r {
            Ok((v, p2)) => pos < p2 <= bytes@.len() && spec_decode_float_bits(bytes@, pos as nat)
                == Ok::<(u64, nat), FromMsgpackError>((v, (p2 - pos) as nat)),
            Err(e) => spec_decode_float_bits(bytes@, pos as nat) == Err::<
                (u64, nat),
                FromMsgpackError,
            >(e),
        },
{
    let n_len = bytes.len();
    if pos >= n_len {
        return Err(FromMsgpackError::MarkerRead);
    }
    let m = crate::marker::marker_of(bytes[pos]);
    match m {
        Marker::F32 => {
            if 5 <= n_len - pos {
                let u = crate::bytes::read_be(bytes, pos + 1, 4);
                proof {
                    crate::bytes::lemma_be_of_bound(bytes@.subrange(pos + 1, pos + 5));
                    assert(pow256(4) == 0x1_0000_0000) by {
                        reveal_with_fuel(pow256, 5);
                    };
                }
                Ok((crate::floatbits::f32_to_f64_bits(u as u32), pos + 5))
            } else {
                Err(FromMsgpackError::Io)
            }
        },
        Marker::F64 => {
            if 9 <= n_len - pos {
                let u = crate::bytes::read_be(bytes, pos + 1, 8);
                Ok((u, pos + 9))
            } else {
                Err(FromMsgpackError::Io)
            }
        },
        _ => Err(FromMsgpackError::Marker { expected: BasicTypeKind::Float, actual: m }),
    }
}

/// Decodes a string at `pos`, from any of the four length-encoding forms.
pub fn decode_string_at(bytes: &Vec<u8>, pos: usize) -> (r: Result<
    (String, usize),
    FromMsgpackError,
>)
    ensures
        match r {
            Ok((v, p2)) => pos < p2 <= bytes@.len() && spec_decode_string(bytes@, pos as nat)
                == Ok::<(Seq<char>, nat), FromMsgpackError>((v@, (p2 - pos) as nat)),
            Err(e) => spec_decode_string(bytes@, pos as nat) == Err::<
                (Seq<char>, nat),
                FromMsgpackError,
            >(e),
        },
{
    let n_len = bytes.len();
    if pos >= n_len {
        return Err(FromMsgpackError::MarkerRead);
    }
    let m = crate::marker::marker_of(bytes[pos]);
    match m {
        Marker::FixStr(k) => read_str_data(bytes, pos + 1, k as usize),
        Marker::Str8 => {
            if 2 <= n_len - pos {
                let k = bytes[pos + 1];
                read_str_data(bytes, pos + 2, k as usize)
            } else {
                Err(FromMsgpackError::Io)
            }
        },
        Marker::Str16 => {
            if 3 <= n_len - pos {
                let k = crate::bytes::read_be(bytes, pos + 1, 2);
                proof {
                    crate::bytes::lemma_be_of_bound(bytes@.subrange(pos + 1, pos + 3));
                    assert(pow256(2) == 0x1_0000) by {
                        reveal_with_fuel(pow256, 3);
                    };
                }
                read_str_data(bytes, pos + 3, k as usize)
            } else {
                Err(FromMsgpackError::Io)
            }
        },
        Marker::Str32 => {
            if 5 <= n_len - pos {
                let k = crate::bytes::read_be(bytes, pos + 1, 4);
                proof {
                    crate::bytes::lemma_be_of_bound(bytes@.subrange(pos + 1, pos + 5));
                    assert(pow256(4) == 0x1_0000_0000) by {
                        reveal_with_fuel(pow256, 5);
                    };
                }
                read_str_data(bytes, pos + 5, k as usize)
            } else {
                Err(FromMsgpackError::Io)
            }
        },
        _ => Err(FromMsgpackError::Marker { expected: BasicTypeKind::String, actual: m }),
    }
}

/// Decodes a handle at `pos`: the fixed 8-byte extension form, whose tag
/// selects the kind.
pub fn decode_special_at(bytes: &Vec<u8>, pos: usize) -> (r: Result<
    (SpecialType, usize),
    FromMsgpackError,
>)
    ensures
        match r {
            Ok((v, p2)) => pos < p2 <= bytes@.len() && spec_decode_special(bytes@, pos as nat)
                == Ok::<(SpecialType, nat), FromMsgpackError>((v, (p2 - pos) as nat)),
            Err(e) => spec_decode_special(bytes@, pos as nat) == Err::<
                (SpecialType, nat),
                FromMsgpackError,
            >(e),
        },
{
    let n_len = bytes.len();
    if pos >= n_len {
        return Err(FromMsgpackError::MarkerRead);
    }
    let m = crate::marker::marker_of(bytes[pos]);
    match m {
        Marker::FixExt8 => {
            if 10 <= n_len - pos {
                let tag = bytes[pos + 1] as i8;
                let u = crate::bytes::read_be(bytes, pos + 2, 8);
                let payload = u as i64;
                if tag == 0 {
                    Ok((SpecialType::Buffer(Buffer { bufnr: payload }), pos + 10))
                } else if tag == 1 {
                    Ok((SpecialType::Window(Window { window_id: payload }), pos + 10))
                } else if tag == 2 {
                    Ok((SpecialType::Tabpage(Tabpage { handle: payload }), pos + 10))
                } else {
                    Err(FromMsgpackError::Marker { expected: BasicTypeKind::Object, actual: m })
                }
            } else {
                Err(FromMsgpackError::Io)
            }
        },
        _ => Err(FromMsgpackError::Marker { expected: BasicTypeKind::Object, actual: m }),
    }
}

/// The category the generic decoder reports for a marker form it does not
/// accept.
fn unsupported_kind(m: Marker) -> (k: BasicTypeKind)
    ensures
        k == spec_unsupported_kind(m),
{
    match m {
        Marker::FixPos(_) => BasicTypeKind::Integer,
        Marker::FixNeg(_) => BasicTypeKind::Integer,
        Marker::Bin8 => BasicTypeKind::String,
        Marker::Bin16 => BasicTypeKind::String,
        Marker::Bin32 => BasicTypeKind::String,
        Marker::Ext8 => BasicTypeKind::Object,
        Marker::Ext16 => BasicTypeKind::Object,
        Marker::Ext32 => BasicTypeKind::Object,
        Marker::FixExt1 => BasicTypeKind::Object,
        Marker::FixExt2 => BasicTypeKind::Object,
        Marker::FixExt4 => BasicTypeKind::Object,
        Marker::FixExt16 => BasicTypeKind::Object,
        _ => BasicTypeKind::Nil,
    }
}

/// Decodes `n` consecutive values starting at `pos`.
#[verifier::loop_isolation(false)]
fn decode_list(bytes: &Vec<u8>, pos: usize, n: usize) -> (r: Result<
    (Vec<BasicType>, usize),
    FromMsgpackError,
>)
    requires
        pos <= bytes@.len(),
    ensures
        match r {
            Ok((vs, p2)) => pos <= p2 <= bytes@.len() && spec_decode_list(
                bytes@,
                pos as nat,
                n as nat,
            ) == Ok::<(Seq<SpecValue>, nat), FromMsgpackError>(
                (crate::value::spec_values_of(vs@), (p2 - pos) as nat),
            ),
            Err(e) => spec_decode_list(bytes@, pos as nat, n as nat) == Err::<
                (Seq<SpecValue>, nat),
                FromMsgpackError,
            >(e),
        },
    decreases spec_rem(bytes@, pos as nat), n as nat, 0nat,
{
    let mut vs: Vec<BasicType> = Vec::new();
    let mut p = pos;
    let mut i: usize = 0;
    proof {
        let r0 = spec_decode_list(bytes@, pos as nat, n as nat);
        match r0 {
            Ok(res) => {
                assert(crate::value::spec_values_of(vs@) + res.0 =~= res.0);
            },
            Err(_) => {},
        }
    }
    while i < n
        invariant
            i <= n,
            pos <= p <= bytes@.len(),
            vs@.len() == i,
            spec_decode_list(bytes@, pos as nat, n as nat) == (match spec_decode_list(
                bytes@,
                p as nat,
                (n - i) as nat,
            ) {
                Ok(res) => Ok::<(Seq<SpecValue>, nat), FromMsgpackError>(
                    (crate::value::spec_values_of(vs@) + res.0, ((p - pos) + res.1) as nat),
                ),
                Err(e) => Err::<(Seq<SpecValue>, nat), FromMsgpackError>(e),
            }),
        decreases n - i,
    {
        match decode_value(bytes, p) {
            Err(e) => {
                return Err(e);
            },
            Ok((v, p2)) => {
                let ghost old_vs = vs@;
                vs.push(v);
                proof {
                    crate::value::lemma_spec_values_of(vs@);
                    crate::value::lemma_spec_values_of(old_vs);
                    assert(crate::value::spec_values_of(vs@) =~= crate::value::spec_values_of(
                        old_vs,
                    ) + seq![v@]);
                    let r_rest = spec_decode_list(bytes@, p2 as nat, (n - i - 1) as nat);
                    match r_rest {
                        Ok(res2) => {
                            assert(crate::value::spec_values_of(old_vs) + (seq![v@] + res2.0)
                                =~= crate::value::spec_values_of(vs@) + res2.0);
                        },
                        Err(_) => {},
                    }
                }
                p = p2;
                i = i + 1;
            },
        }
    }
    proof {
        assert(crate::value::spec_values_of(vs@) + Seq::<SpecValue>::empty()
            =~= crate::value::spec_values_of(vs@));
    }
    Ok((vs, p))
}

/// Decodes `n` consecutive key/value pairs starting at `pos`, key first.
#[verifier::loop_isolation(false)]
#[verifier::rlimit(60)]
fn decode_pairs(bytes: &Vec<u8>, pos: usize, n: usize) -> (r: Result<
    (Vec<(BasicType, BasicType)>, usize),
    FromMsgpackError,
>)
    requires
        pos <= bytes@.len(),
    ensures
        match r {
            Ok((es, p2)) => pos <= p2 <= bytes@.len() && spec_decode_pairs(
                bytes@,
                pos as nat,
                n as nat,
            ) == Ok::<(Seq<(SpecValue, SpecValue)>, nat), FromMsgpackError>(
                (crate::value::spec_entries_of(es@), (p2 - pos) as nat),
            ),
            Err(e) => spec_decode_pairs(bytes@, pos as nat, n as nat) == Err::<
                (Seq<(SpecValue, SpecValue)>, nat),
                FromMsgpackError,
            >(e),
        },
    decreases spec_rem(bytes@, pos as nat), n as nat, 0nat,
{
    let mut es: Vec<(BasicType, BasicType)> = Vec::new();
    let mut p = pos;
    let mut i: usize = 0;
    proof {
        let r0 = spec_decode_pairs(bytes@, pos as nat, n as nat);
        match r0 {
            Ok(res) => {
                assert(crate::value::spec_entries_of(es@) + res.0 =~= res.0);
            },
            Err(_) => {},
        }
    }
    while i < n
        invariant
            i <= n,
            pos <= p <= bytes@.len(),
            es@.len() == i,
            spec_decode_pairs(bytes@, pos as nat, n as nat) == (match spec_decode_pairs(
                bytes@,
                p as nat,
                (n - i) as nat,
            ) {
                Ok(res) => Ok::<(Seq<(SpecValue, SpecValue)>, nat), FromMsgpackError>(
                    (crate::value::spec_entries_of(es@) + res.0, ((p - pos) + res.1) as nat),
                ),
                Err(e) => Err::<(Seq<(SpecValue, SpecValue)>, nat), FromMsgpackError>(e),
            }),
        decreases n - i,
    {
        let k = match decode_value(bytes, p) {
            Err(e) => {
                return Err(e);
            },
            Ok(kr) => kr,
        };
        let v = match decode_value(bytes, k.1) {
            Err(e) => {
                return Err(e);
            },
            Ok(vr) => vr,
        };
        let p2 = v.1;
        let ghost old_es = es@;
        es.push((k.0, v.0));
        proof {
            crate::value::lemma_spec_entries_of(es@);
            crate::value::lemma_spec_entries_of(old_es);
            assert(crate::value::spec_entries_of(es@) =~= crate::value::spec_entries_of(old_es)
                + seq![(k.0@, v.0@)]);
            let r_rest = spec_decode_pairs(bytes@, p2 as nat, (n - i - 1) as nat);
            match r_rest {
                Ok(res2) => {
                    assert(crate::value::spec_entries_of(old_es) + (seq![(k.0@, v.0@)] + res2.0)
                        =~= crate::value::spec_entries_of(es@) + res2.0);
                },
                Err(_) => {},
            }
        }
        p = p2;
        i = i + 1;
    }
    proof {
        assert(crate::value::spec_entries_of(es@) + Seq::<(SpecValue, SpecValue)>::empty()
            =~= crate::value::spec_entries_of(es@));
    }
    Ok((es, p))
}

/// Decodes one value of any category at `pos`: the spine of the decoder,
/// dispatching on the marker byte and recursing for collections.
#[verifier::loop_isolation(false)]
pub fn decode_value(bytes: &Vec<u8>, pos: usize) -> (r: Result<
    (BasicType, usize),
    FromMsgpackError,
>)
    ensures
        match r {
            Ok((v, p2)) => pos < p2 <= bytes@.len() && spec_decode(bytes@, pos as nat) == Ok::<
                (SpecValue, nat),
                FromMsgpackError,
            >((v@, (p2 - pos) as nat)),
            Err(e) => spec_decode(bytes@, pos as nat) == Err::<
                (SpecValue, nat),
                FromMsgpackError,
            >(e),
        },
    decreases spec_rem(bytes@, pos as nat), 0nat, 1nat,
{
    let n_len = bytes.len();
    if pos >= n_len {
        return Err(FromMsgpackError::MarkerRead);
    }
    let m = crate::marker::marker_of(bytes[pos]);
    match m {
        Marker::Nil => Ok((BasicType::Nil, pos + 1)),
        Marker::True => Ok((BasicType::Boolean(true), pos + 1)),
        Marker::False => Ok((BasicType::Boolean(false), pos + 1)),
        Marker::U8 => wrap_int(decode_i64_at(bytes, pos)),
        Marker::U16 => wrap_int(decode_i64_at(bytes, pos)),
        Marker::U32 => wrap_int(decode_i64_at(bytes, pos)),
        Marker::U64 => wrap_int(decode_i64_at(bytes, pos)),
        Marker::I8 => wrap_int(decode_i64_at(bytes, pos)),
        Marker::I16 => wrap_int(decode_i64_at(bytes, pos)),
        Marker::I32 => wrap_int(decode_i64_at(bytes, pos)),
        Marker::I64 => wrap_int(decode_i64_at(bytes, pos)),
        Marker::F32 => wrap_float(decode_float_at(bytes, pos)),
        Marker::F64 => wrap_float(decode_float_at(bytes, pos)),
        Marker::FixStr(_) => wrap_string(decode_string_at(bytes, pos)),
        Marker::Str8 => wrap_string(decode_string_at(bytes, pos)),
        Marker::Str16 => wrap_string(decode_string_at(bytes, pos)),
        Marker::Str32 => wrap_string(decode_string_at(bytes, pos)),
        Marker::FixExt8 => wrap_special(decode_special_at(bytes, pos)),
        Marker::FixArray(k) => {
            match decode_list(bytes, pos + 1, k as usize) {
                Ok((elems, p2)) => Ok((BasicType::Array(elems), p2)),
                Err(e) => Err(e),
            }
        },
        Marker::Array16 => {
            if 3 <= n_len - pos {
                let k = crate::bytes::read_be(bytes, pos + 1, 2);
                proof {
                    crate::bytes::lemma_be_of_bound(bytes@.subrange(pos + 1, pos + 3));
                    assert(pow256(2) == 0x1_0000) by {
                        reveal_with_fuel(pow256, 3);
                    };
                }
                match decode_list(bytes, pos + 3, k as usize) {
                    Ok((elems, p2)) => Ok((BasicType::Array(elems), p2)),
                    Err(e) => Err(e),
                }
            } else {
                Err(FromMsgpackError::Io)
            }
        },
        Marker::Array32 => {
            if 5 <= n_len - pos {
                let k = crate::bytes::read_be(bytes, pos + 1, 4);
                proof {
                    crate::bytes::lemma_be_of_bound(bytes@.subrange(pos + 1, pos + 5));
                    assert(pow256(4) == 0x1_0000_0000) by {
                        reveal_with_fuel(pow256, 5);
                    };
                }
                match decode_list(bytes, pos + 5, k as usize) {
                    Ok((elems, p2)) => Ok((BasicType::Array(elems), p2)),
                    Err(e) => Err(e),
                }
            } else {
                Err(FromMsgpackError::Io)
            }
        },
        Marker::FixMap(k) => {
            match decode_pairs(bytes, pos + 1, k as usize) {
                Ok((entries, p2)) => Ok((BasicType::Dictionary(entries), p2)),
                Err(e) => Err(e),
            }
        },
        Marker::Map16 => {
            if 3 <= n_len - pos {
                let k = crate::bytes::read_be(bytes, pos + 1, 2);
                proof {
                    crate::bytes::lemma_be_of_bound(bytes@.subrange(pos + 1, pos + 3));
                    assert(pow256(2) == 0x1_0000) by {
                        reveal_with_fuel(pow256, 3);
                    };
                }
                match decode_pairs(bytes, pos + 3, k as usize) {
                    Ok((entries, p2)) => Ok((BasicType::Dictionary(entries), p2)),
                    Err(e) => Err(e),
                }
            } else {
                Err(FromMsgpackError::Io)
            }
        },
        Marker::Map32 => {
            if 5 <= n_len - pos {
                let k = crate::bytes::read_be(bytes, pos + 1, 4);
                proof {
                    crate::bytes::lemma_be_of_bound(bytes@.subrange(pos + 1, pos + 5));
                    assert(pow256(4) == 0x1_0000_0000) by {
                        reveal_with_fuel(pow256, 5);
                    };
                }
                match decode_pairs(bytes, pos + 5, k as usize) {
                    Ok((entries, p2)) => Ok((BasicType::Dictionary(entries), p2)),
                    Err(e) => Err(e),
                }
            } else {
                Err(FromMsgpackError::Io)
            }
        },
        _ => Err(FromMsgpackError::Marker { expected: unsupported_kind(m), actual: m }),
    }
}

/// Decodes a sequence at `pos`: one of the three length-encoding forms,
/// then that many elements in order.
pub open spec fn spec_decode_array(bytes: Seq<u8>, pos: nat) -> Result<
    (Seq<SpecValue>, nat),
    FromMsgpackError,
> {
    if pos >= bytes.len() {
        Err(FromMsgpackError::MarkerRead)
    } else {
        let m = spec_marker_of(bytes[pos as int]);
        match m {
            Marker::FixArray(n) => match spec_decode_list(bytes, pos + 1, n as nat) {
                Ok(res) => Ok((res.0, (1 + res.1) as nat)),
                Err(e) => Err(e),
            },
            Marker::Array16 => if pos + 3 <= bytes.len() {
                match spec_decode_list(
                    bytes,
                    pos + 3,
                    be_of(bytes.subrange((pos + 1) as int, (pos + 3) as int)),
                ) {
                    Ok(res) => Ok((res.0, (3 + res.1) as nat)),
                    Err(e) => Err(e),
                }
            } else {
                Err(FromMsgpackError::Io)
            },
            Marker::Array32 => if pos + 5 <= bytes.len() {
                match spec_decode_list(
                    bytes,
                    pos + 5,
                    be_of(bytes.subrange((pos + 1) as int, (pos + 5) as int)),
                ) {
                    Ok(res) => Ok((res.0, (5 + res.1) as nat)),
                    Err(e) => Err(e),
                }
            } else {
                Err(FromMsgpackError::Io)
            },
            _ => Err(FromMsgpackError::Marker { expected: BasicTypeKind::Array, actual: m }),
        }
    }
}

/// Decodes a mapping at `pos`: one of the three length-encoding forms, then
/// that many key/value pairs, key first.
pub open spec fn spec_decode_dictionary(bytes: Seq<u8>, pos: nat) -> Result<
    (Seq<(SpecValue, SpecValue)>, nat),
    FromMsgpackError,
> {
    if pos >= bytes.len() {
        Err(FromMsgpackError::MarkerRead)
    } else {
        let m = spec_marker_of(bytes[pos as int]);
        match m {
            Marker::FixMap(n) => match spec_decode_pairs(bytes, pos + 1, n as nat) {
                Ok(res) => Ok((res.0, (1 + res.1) as nat)),
                Err(e) => Err(e),
            },
            Marker::Map16 => if pos + 3 <= bytes.len() {
                match spec_decode_pairs(
                    bytes,
                    pos + 3,
                    be_of(bytes.subrange((pos + 1) as int, (pos + 3) as int)),
                ) {
                    Ok(res) => Ok((res.0, (3 + res.1) as nat)),
                    Err(e) => Err(e),
                }
            } else {
                Err(FromMsgpackError::Io)
            },
            Marker::Map32 => if pos + 5 <= bytes.len() {
                match spec_decode_pairs(
                    bytes,
                    pos + 5,
                    be_of(bytes.subrange((pos + 1) as int, (pos + 5) as int)),
                ) {
                    Ok(res) => Ok((res.0, (5 + res.1) as nat)),
                    Err(e) => Err(e),
                }
            } else {
                Err(FromMsgpackError::Io)
            },
            _ => Err(FromMsgpackError::Marker { expected: BasicTypeKind::Dictionary, actual: m }),
        }
    }
}

/// Decodes a sequence at `pos`, rejecting any non-sequence marker.
#[verifier::loop_isolation(false)]
pub fn decode_array_at(bytes: &Vec<u8>, pos: usize) -> (r: Result<
    (Vec<BasicType>, usize),
    FromMsgpackError,
>)
    ensures
        match r {
            Ok((vs, p2)) => pos < p2 <= bytes@.len() && spec_decode_array(bytes@, pos as nat)
                == Ok::<(Seq<SpecValue>, nat), FromMsgpackError>(
                (crate::value::spec_values_of(vs@), (p2 - pos) as nat),
            ),
            Err(e) => spec_decode_array(bytes@, pos as nat) == Err::<
                (Seq<SpecValue>, nat),
                FromMsgpackError,
            >(e),
        },
{
    let n_len = bytes.len();
    if pos >= n_len {
        return Err(FromMsgpackError::MarkerRead);
    }
    let m = crate::marker::marker_of(bytes[pos]);
    match m {
        Marker::FixArray(k) => decode_list(bytes, pos + 1, k as usize),
        Marker::Array16 => {
            if 3 <= n_len - pos {
                let k = crate::bytes::read_be(bytes, pos + 1, 2);
                proof {
                    crate::bytes::lemma_be_of_bound(bytes@.subrange(pos + 1, pos + 3));
                    assert(pow256(2) == 0x1_0000) by {
                        reveal_with_fuel(pow256, 3);
                    };
                }
                decode_list(bytes, pos + 3, k as usize)
            } else {
                Err(FromMsgpackError::Io)
            }
        },
        Marker::Array32 => {
            if 5 <= n_len - pos {
                let k = crate::bytes::read_be(bytes, pos + 1, 4);
                proof {
                    crate::bytes::lemma_be_of_bound(bytes@.subrange(pos + 1, pos + 5));
                    assert(pow256(4) == 0x1_0000_0000) by {
                        reveal_with_fuel(pow256, 5);
                    };
                }
                decode_list(bytes, pos + 5, k as usize)
            } else {
                Err(FromMsgpackError::Io)
            }
        },
        _ => Err(FromMsgpackError::Marker { expected: BasicTypeKind::Array, actual: m }),
    }
}

/// Decodes a mapping at `pos`, rejecting any non-mapping marker.
#[verifier::loop_isolation(false)]
pub fn decode_dictionary_at(bytes: &Vec<u8>, pos: usize) -> (r: Result<
    (Vec<(BasicType, BasicType)>, usize),
    FromMsgpackError,
>)
    ensures
        match r {
            Ok((es, p2)) => pos < p2 <= bytes@.len() && spec_decode_dictionary(bytes@, pos as nat)
                == Ok::<(Seq<(SpecValue, SpecValue)>, nat), FromMsgpackError>(
                (crate::value::spec_entries_of(es@), (p2 - pos) as nat),
            ),
            Err(e) => spec_decode_dictionary(bytes@, pos as nat) == Err::<
                (Seq<(SpecValue, SpecValue)>, nat),
                FromMsgpackError,
            >(e),
        },
{
    let n_len = bytes.len();
    if pos >= n_len {
        return Err(FromMsgpackError::MarkerRead);
    }
    let m = crate::marker::marker_of(bytes[pos]);
    match m {
        Marker::FixMap(k) => decode_pairs(bytes, pos + 1, k as usize),
        Marker::Map16 => {
            if 3 <= n_len - pos {
                let k = crate::bytes::read_be(bytes, pos + 1, 2);
                proof {
                    crate::bytes::lemma_be_of_bound(bytes@.subrange(pos + 1, pos + 3));
                    assert(pow256(2) == 0x1_0000) by {
                        reveal_with_fuel(pow256, 3);
                    };
                }
                decode_pairs(bytes, pos + 3, k as usize)
            } else {
                Err(FromMsgpackError::Io)
            }
        },
        Marker::Map32 => {
            if 5 <= n_len - pos {
                let k = crate::bytes::read_be(bytes, pos + 1, 4);
                proof {
                    crate::bytes::lemma_be_of_bound(bytes@.subrange(pos + 1, pos + 5));
                    assert(pow256(4) == 0x1_0000_0000) by {
                        reveal_with_fuel(pow256, 5);
                    };
                }
                decode_pairs(bytes, pos + 5, k as usize)
            } else {
                Err(FromMsgpackError::Io)
            }
        },
        _ => Err(FromMsgpackError::Marker { expected: BasicTypeKind::Dictionary, actual: m }),
    }
}

/// Anything that can be read back from the wire encoding. The spec member
/// defines, for every byte source and position, exactly what the decode
/// returns — value and bytes consumed on success, which error otherwise —
/// and the executable decoder is proved to follow it.
pub trait FromMsgpack: Sized + DeepView {
    /// What decoding this type means, as a function of the byte source.
    spec fn spec_from_msgpack(bytes: Seq<u8>, pos: nat) -> Result<
        (Self::V, nat),
        FromMsgpackError,
    >;

    /// Decodes one value at `pos`, returning it with the position after it.
    fn from_msgpack(bytes: &Vec<u8>, pos: usize) -> (r: Result<(Self, usize), FromMsgpackError>)
        ensures
            match r {
                Ok(vp) => pos < vp.1 <= bytes@.len() && Self::spec_from_msgpack(
                    bytes@,
                    pos as nat,
                ) == Ok::<(Self::V, nat), FromMsgpackError>(
                    (vp.0.deep_view(), (vp.1 - pos) as nat),
                ),
                Err(e) => Self::spec_from_msgpack(bytes@, pos as nat) == Err::<
                    (Self::V, nat),
                    FromMsgpackError,
                >(e),
            },
    ;
}

impl FromMsgpack for bool {
    open spec fn spec_from_msgpack(bytes: Seq<u8>, pos: nat) -> Result<
        (bool, nat),
        FromMsgpackError,
    > {
        spec_decode_bool(bytes, pos)
    }

    fn from_msgpack(bytes: &Vec<u8>, pos: usize) -> Result<(Self, usize), FromMsgpackError> {
        decode_bool_at(bytes, pos)
    }
}

impl FromMsgpack for i64 {
    open spec fn spec_from_msgpack(bytes: Seq<u8>, pos: nat) -> Result<
        (i64, nat),
        FromMsgpackError,
    > {
        spec_decode_i64(bytes, pos)
    }

    fn from_msgpack(bytes: &Vec<u8>, pos: usize) -> Result<(Self, usize), FromMsgpackError> {
        decode_i64_at(bytes, pos)
    }
}

impl FromMsgpack for crate::value::FloatBits {
    open spec fn spec_from_msgpack(bytes: Seq<u8>, pos: nat) -> Result<
        (crate::value::FloatBits, nat),
        FromMsgpackError,
    > {
        match spec_decode_float_bits(bytes, pos) {
            Ok((bits, c)) => Ok((crate::value::FloatBits { bits }, c)),
            Err(e) => Err(e),
        }
    }

    fn from_msgpack(bytes: &Vec<u8>, pos: usize) -> Result<(Self, usize), FromMsgpackError> {
        match decode_float_at(bytes, pos) {
            Ok((bits, p2)) => Ok((crate::value::FloatBits { bits }, p2)),
            Err(e) => Err(e),
        }
    }
}

impl FromMsgpack for String {
    open spec fn spec_from_msgpack(bytes: Seq<u8>, pos: nat) -> Result<
        (Seq<char>, nat),
        FromMsgpackError,
    > {
        spec_decode_string(bytes, pos)
    }

    fn from_msgpack(bytes: &Vec<u8>, pos: usize) -> Result<(Self, usize), FromMsgpackError> {
        decode_string_at(bytes, pos)
    }
}

/// Decodes a sequence whose elements are all read as `T`: one of the three
/// length-encoding forms, then `n` elements of `T`.
pub open spec fn spec_decode_array_of<T: FromMsgpack>(bytes: Seq<u8>, pos: nat) -> Result<
    (Seq<T::V>, nat),
    FromMsgpackError,
> {
    if pos >= bytes.len() {
        Err(FromMsgpackError::MarkerRead)
    } else {
        let m = spec_marker_of(bytes[pos as int]);
        match m {
            Marker::FixArray(n) => match spec_decode_list_of::<T>(bytes, pos + 1, n as nat) {
                Ok(res) => Ok((res.0, (1 + res.1) as nat)),
                Err(e) => Err(e),
            },
            Marker::Array16 => if pos + 3 <= bytes.len() {
                match spec_decode_list_of::<T>(
                    bytes,
                    pos + 3,
                    be_of(bytes.subrange((pos + 1) as int, (pos + 3) as int)),
                ) {
                    Ok(res) => Ok((res.0, (3 + res.1) as nat)),
                    Err(e) => Err(e),
                }
            } else {
                Err(FromMsgpackError::Io)
            },
            Marker::Array32 => if pos + 5 <= bytes.len() {
                match spec_decode_list_of::<T>(
                    bytes,
                    pos + 5,
                    be_of(bytes.subrange((pos + 1) as int, (pos + 5) as int)),
                ) {
                    Ok(res) => Ok((res.0, (5 + res.1) as nat)),
                    Err(e) => Err(e),
                }
            } else {
                Err(FromMsgpackError::Io)
            },
            _ => Err(FromMsgpackError::Marker { expected: BasicTypeKind::Array, actual: m }),
        }
    }
}

/// Decodes `n` consecutive elements of `T` starting at `pos`.
#[verifier::loop_isolation(false)]
fn decode_list_of<T: FromMsgpack>(bytes: &Vec<u8>, pos: usize, n: usize) -> (r: Result<
    (Vec<T>, usize),
    FromMsgpackError,
>)
    requires
        pos <= bytes@.len(),
    ensures
        match r {
            Ok((vs, p2)) => pos <= p2 <= bytes@.len() && spec_decode_list_of::<T>(
                bytes@,
                pos as nat,
                n as nat,
            ) == Ok::<(Seq<T::V>, nat), FromMsgpackError>((vs.deep_view(), (p2 - pos) as nat)),
            Err(e) => spec_decode_list_of::<T>(bytes@, pos as nat, n as nat) == Err::<
                (Seq<T::V>, nat),
                FromMsgpackError,
            >(e),
        },
{
    let mut vs: Vec<T> = Vec::new();
    let mut p = pos;
    let mut i: usize = 0;
    proof {
        let r0 = spec_decode_list_of::<T>(bytes@, pos as nat, n as nat);
        match r0 {
            Ok(res) => {
                assert(vs.deep_view() + res.0 =~= res.0);
            },
            Err(_) => {},
        }
    }
    while i < n
        invariant
            i <= n,
            pos <= p <= bytes@.len(),
            vs@.len() == i,
            spec_decode_list_of::<T>(bytes@, pos as nat, n as nat) == (match spec_decode_list_of::<
                T,
            >(bytes@, p as nat, (n - i) as nat) {
                Ok(res) => Ok::<(Seq<T::V>, nat), FromMsgpackError>(
                    (vs.deep_view() + res.0, ((p - pos) + res.1) as nat),
                ),
                Err(e) => Err::<(Seq<T::V>, nat), FromMsgpackError>(e),
            }),
        decreases n - i,
    {
        match T::from_msgpack(bytes, p) {
            Err(e) => {
                return Err(e);
            },
            Ok((v, p2)) => {
                let ghost old_vs = vs.deep_view();
                let ghost vv = v.deep_view();
                vs.push(v);
                proof {
                    assert(vs.deep_view() =~= old_vs.push(vv));
                    let r_rest = spec_decode_list_of::<T>(bytes@, p2 as nat, (n - i - 1) as nat);
                    match r_rest {
                        Ok(res2) => {
                            assert(old_vs + (seq![vv] + res2.0) =~= vs.deep_view() + res2.0);
                        },
                        Err(_) => {},
                    }
                }
                p = p2;
                i = i + 1;
            },
        }
    }
    proof {
        assert(vs.deep_view() + Seq::<T::V>::empty() =~= vs.deep_view());
    }
    Ok((vs, p))
}

impl<T: FromMsgpack> FromMsgpack for Vec<T> {
    open spec fn spec_from_msgpack(bytes: Seq<u8>, pos: nat) -> Result<
        (Seq<T::V>, nat),
        FromMsgpackError,
    > {
        spec_decode_array_of::<T>(bytes, pos)
    }

    fn from_msgpack(bytes: &Vec<u8>, pos: usize) -> Result<(Self, usize), FromMsgpackError> {
        let n_len = bytes.len();
        if pos >= n_len {
            return Err(FromMsgpackError::MarkerRead);
        }
        let m = crate::marker::marker_of(bytes[pos]);
        match m {
            Marker::FixArray(k) => decode_list_of::<T>(bytes, pos + 1, k as usize),
            Marker::Array16 => {
                if 3 <= n_len - pos {
                    let k = crate::bytes::read_be(bytes, pos + 1, 2);
                    proof {
                        crate::bytes::lemma_be_of_bound(bytes@.subrange(pos + 1, pos + 3));
                        assert(pow256(2) == 0x1_0000) by {
                            reveal_with_fuel(pow256, 3);
                        };
                    }
                    decode_list_of::<T>(bytes, pos + 3, k as usize)
                } else {
                    Err(FromMsgpackError::Io)
                }
            },
            Marker::Array32 => {
                if 5 <= n_len - pos {
                    let k = crate::bytes::read_be(bytes, pos + 1, 4);
                    proof {
                        crate::bytes::lemma_be_of_bound(bytes@.subrange(pos + 1, pos + 5));
                        assert(pow256(4) == 0x1_0000_0000) by {
                            reveal_with_fuel(pow256, 5);
                        };
                    }
                    decode_list_of::<T>(bytes, pos + 5, k as usize)
                } else {
                    Err(FromMsgpackError::Io)
                }
            },
            _ => Err(FromMsgpackError::Marker { expected: BasicTypeKind::Array, actual: m }),
        }
    }
}

impl FromMsgpack for BasicType {
    open spec fn spec_from_msgpack(bytes: Seq<u8>, pos: nat) -> Result<
        (SpecValue, nat),
        FromMsgpackError,
    > {
        spec_decode(bytes, pos)
    }

    fn from_msgpack(bytes: &Vec<u8>, pos: usize) -> Result<(Self, usize), FromMsgpackError> {
        decode_value(bytes, pos)
    }
}

impl FromMsgpack for SpecialType {
    open spec fn spec_from_msgpack(bytes: Seq<u8>, pos: nat) -> Result<
        (SpecialType, nat),
        FromMsgpackError,
    > {
        spec_decode_special(bytes, pos)
    }

    fn from_msgpack(bytes: &Vec<u8>, pos: usize) -> Result<(Self, usize), FromMsgpackError> {
        decode_special_at(bytes, pos)
    }
}

impl FromMsgpack for Buffer {
    open spec fn spec_from_msgpack(bytes: Seq<u8>, pos: nat) -> Result<
        (Buffer, nat),
        FromMsgpackError,
    > {
        match spec_decode_special(bytes, pos) {
            Ok((SpecialType::Buffer(b), c)) => Ok((b, c)),
            Ok(_) => Err(
                FromMsgpackError::Marker {
                    expected: BasicTypeKind::Object,
                    actual: Marker::FixExt8,
                },
            ),
            Err(e) => Err(e),
        }
    }

    fn from_msgpack(bytes: &Vec<u8>, pos: usize) -> Result<(Self, usize), FromMsgpackError> {
        match decode_special_at(bytes, pos) {
            Ok((SpecialType::Buffer(b), p2)) => Ok((b, p2)),
            Ok(_) => Err(
                FromMsgpackError::Marker {
                    expected: BasicTypeKind::Object,
                    actual: Marker::FixExt8,
                },
            ),
            Err(e) => Err(e),
        }
    }
}

impl FromMsgpack for Window {
    open spec fn spec_from_msgpack(bytes: Seq<u8>, pos: nat) -> Result<
        (Window, nat),
        FromMsgpackError,
    > {
        match spec_decode_special(bytes, pos) {
            Ok((SpecialType::Window(w), c)) => Ok((w, c)),
            Ok(_) => Err(
                FromMsgpackError::Marker {
                    expected: BasicTypeKind::Object,
                    actual: Marker::FixExt8,
                },
            ),
            Err(e) => Err(e),
        }
    }

    fn from_msgpack(bytes: &Vec<u8>, pos: usize) -> Result<(Self, usize), FromMsgpackError> {
        match decode_special_at(bytes, pos) {
            Ok((SpecialType::Window(w), p2)) => Ok((w, p2)),
            Ok(_) => Err(
                FromMsgpackError::Marker {
                    expected: BasicTypeKind::Object,
                    actual: Marker::FixExt8,
                },
            ),
            Err(e) => Err(e),
        }
    }
}

impl FromMsgpack for Tabpage {
    open spec fn spec_from_msgpack(bytes: Seq<u8>, pos: nat) -> Result<
        (Tabpage, nat),
        FromMsgpackError,
    > {
        match spec_decode_special(bytes, pos) {
            Ok((SpecialType::Tabpage(t), c)) => Ok((t, c)),
            Ok(_) => Err(
                FromMsgpackError::Marker {
                    expected: BasicTypeKind::Object,
                    actual: Marker::FixExt8,
                },
            ),
            Err(e) => Err(e),
        }
    }

    fn from_msgpack(bytes: &Vec<u8>, pos: usize) -> Result<(Self, usize), FromMsgpackError> {
        match decode_special_at(bytes, pos) {
            Ok((SpecialType::Tabpage(t), p2)) => Ok((t, p2)),
            Ok(_) => Err(
                FromMsgpackError::Marker {
                    expected: BasicTypeKind::Object,
                    actual: Marker::FixExt8,
                },
            ),
            Err(e) => Err(e),
        }
    }
}

/// Decodes `n` consecutive values of one type, element after element.
pub open spec fn spec_decode_list_of<T: FromMsgpack>(bytes: Seq<u8>, pos: nat, n: nat) -> Result<
    (Seq<T::V>, nat),
    FromMsgpackError,
>
    decreases spec_rem(bytes, pos), n,
{
    if n == 0 {
        Ok((Seq::empty(), 0))
    } else {
        match T::spec_from_msgpack(bytes, pos) {
            Err(e) => Err(e),
            Ok((v, c)) => match spec_decode_list_of::<T>(bytes, pos + c, (n - 1) as nat) {
                Err(e) => Err(e),
                Ok((s, c2)) => Ok((seq![v] + s, (c + c2) as nat)),
            },
        }
    }
}

/// A marker outside the expected category fails with a structural-mismatch
/// error that reports the expected category and the actual marker observed,
/// for every typed decoder.
pub proof fn lemma_mismatch_reports_marker(bytes: Seq<u8>, pos: nat)
    requires
        pos < bytes.len(),
    ensures
        ({
            let m = spec_marker_of(bytes[pos as int]);
            &&& !(m is True || m is False) ==> spec_decode_bool(bytes, pos) == Err::<
                (bool, nat),
                FromMsgpackError,
            >(FromMsgpackError::Marker { expected: BasicTypeKind::Boolean, actual: m })
            &&& !(m is U8 || m is U16 || m is U32 || m is U64 || m is I8 || m is I16 || m is I32
                || m is I64) ==> spec_decode_i64(bytes, pos) == Err::<
                (i64, nat),
                FromMsgpackError,
            >(FromMsgpackError::Marker { expected: BasicTypeKind::Integer, actual: m })
            &&& !(m is F32 || m is F64) ==> spec_decode_float_bits(bytes, pos) == Err::<
                (u64, nat),
                FromMsgpackError,
            >(FromMsgpackError::Marker { expected: BasicTypeKind::Float, actual: m })
            &&& !(m is FixStr || m is Str8 || m is Str16 || m is Str32) ==> spec_decode_string(
                bytes,
                pos,
            ) == Err::<(Seq<char>, nat), FromMsgpackError>(
                FromMsgpackError::Marker { expected: BasicTypeKind::String, actual: m },
            )
            &&& !(m is FixExt8) ==> spec_decode_special(bytes, pos) == Err::<
                (SpecialType, nat),
                FromMsgpackError,
            >(FromMsgpackError::Marker { expected: BasicTypeKind::Object, actual: m })
        }),
{
}

/// Wraps a decoded integer into the value model.
fn wrap_int(r: Result<(i64, usize), FromMsgpackError>) -> (r2: Result<
    (BasicType, usize),
    FromMsgpackError,
>)
    ensures
        match r {
            Ok((i, p2)) => r2 == Ok::<(BasicType, usize), FromMsgpackError>(
                (BasicType::Integer(i), p2),
            ),
            Err(e) => r2 == Err::<(BasicType, usize), FromMsgpackError>(e),
        },
{
    match r {
        Ok((i, p2)) => Ok((BasicType::Integer(i), p2)),
        Err(e) => Err(e),
    }
}

/// Wraps a decoded float bit pattern into the value model.
fn wrap_float(r: Result<(u64, usize), FromMsgpackError>) -> (r2: Result<
    (BasicType, usize),
    FromMsgpackError,
>)
    ensures
        match r {
            Ok((bits, p2)) => r2 == Ok::<(BasicType, usize), FromMsgpackError>(
                (BasicType::Float(bits), p2),
            ),
            Err(e) => r2 == Err::<(BasicType, usize), FromMsgpackError>(e),
        },
{
    match r {
        Ok((bits, p2)) => Ok((BasicType::Float(bits), p2)),
        Err(e) => Err(e),
    }
}

/// Wraps a decoded string into the value model.
fn wrap_string(r: Result<(String, usize), FromMsgpackError>) -> (r2: Result<
    (BasicType, usize),
    FromMsgpackError,
>)
    ensures
        match r {
            Ok(sp) => r2 is Ok && r2->Ok_0.0 == BasicType::String(sp.0) && r2->Ok_0.1 == sp.1,
            Err(e) => r2 == Err::<(BasicType, usize), FromMsgpackError>(e),
        },
{
    match r {
        Ok((s, p2)) => Ok((BasicType::String(s), p2)),
        Err(e) => Err(e),
    }
}

/// Wraps a decoded handle into the value model.
fn wrap_special(r: Result<(SpecialType, usize), FromMsgpackError>) -> (r2: Result<
    (BasicType, usize),
    FromMsgpackError,
>)
    ensures
        match r {
            Ok((o, p2)) => r2 == Ok::<(BasicType, usize), FromMsgpackError>(
                (BasicType::Object(o), p2),
            ),
            Err(e) => r2 == Err::<(BasicType, usize), FromMsgpackError>(e),
        },
{
    match r {
        Ok((o, p2)) => Ok((BasicType::Object(o), p2)),
        Err(e) => Err(e),
    }
}

} // verus!
