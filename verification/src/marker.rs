//! The leading marker byte of an encoded value: its category and width class.

use vstd::prelude::*;

verus! {

/// A decoded marker byte. Every byte maps to exactly one marker; `Reserved`
/// is the one byte the wire format leaves unused.
#[derive(Clone, Copy, Debug, PartialEq, Eq, Structural)]
pub enum Marker {
    FixPos(u8),
    FixNeg(i8),
    FixMap(u8),
    FixArray(u8),
    FixStr(u8),
    Nil,
    Reserved,
    False,
    True,
    Bin8,
    Bin16,
    Bin32,
    Ext8,
    Ext16,
    Ext32,
    F32,
    F64,
    U8,
    U16,
    U32,
    U64,
    I8,
    I16,
    I32,
    I64,
    FixExt1,
    FixExt2,
    FixExt4,
    FixExt8,
    FixExt16,
    Str8,
    Str16,
    Str32,
    Array16,
    Array32,
    Map16,
    Map32,
}

/// The marker a byte denotes.
pub open spec fn spec_marker_of(b: u8) -> Marker {
    if b <= 0x7f {
        Marker::FixPos(b)
    } else if b <= 0x8f {
        Marker::FixMap((b - 0x80) as u8)
    } else if b <= 0x9f {
        Marker::FixArray((b - 0x90) as u8)
    } else if b <= 0xbf {
        Marker::FixStr((b - 0xa0) as u8)
    } else if b == 0xc0 {
        Marker::Nil
    } else if b == 0xc1 {
        Marker::Reserved
    } else if b == 0xc2 {
        Marker::False
    } else if b == 0xc3 {
        Marker::True
    } else if b == 0xc4 {
        Marker::Bin8
    } else if b == 0xc5 {
        Marker::Bin16
    } else if b == 0xc6 {
        Marker::Bin32
    } else if b == 0xc7 {
        Marker::Ext8
    } else if b == 0xc8 {
        Marker::Ext16
    } else if b == 0xc9 {
        Marker::Ext32
    } else if b == 0xca {
        Marker::F32
    } else if b == 0xcb {
        Marker::F64
    } else if b == 0xcc {
        Marker::U8
    } else if b == 0xcd {
        Marker::U16
    } else if b == 0xce {
        Marker::U32
    } else if b == 0xcf {
        Marker::U64
    } else if b == 0xd0 {
        Marker::I8
    } else if b == 0xd1 {
        Marker::I16
    } else if b == 0xd2 {
        Marker::I32
    } else if b == 0xd3 {
        Marker::I64
    } else if b == 0xd4 {
        Marker::FixExt1
    } else if b == 0xd5 {
        Marker::FixExt2
    } else if b == 0xd6 {
        Marker::FixExt4
    } else if b == 0xd7 {
        Marker::FixExt8
    } else if b == 0xd8 {
        Marker::FixExt16
    } else if b == 0xd9 {
        Marker::Str8
    } else if b == 0xda {
        Marker::Str16
    } else if b == 0xdb {
        Marker::Str32
    } else if b == 0xdc {
        Marker::Array16
    } else if b == 0xdd {
        Marker::Array32
    } else if b == 0xde {
        Marker::Map16
    } else if b == 0xdf {
        Marker::Map32
    } else {
        Marker::FixNeg(b as i8)
    }
}

/// Reads the marker a byte denotes.
pub fn marker_of(b: u8) -> (m: Marker)
    ensures
        m == spec_marker_of(b),
{
    if b <= 0x7f {
        Marker::FixPos(b)
    } else if b <= 0x8f {
        Marker::FixMap(b - 0x80)
    } else if b <= 0x9f {
        Marker::FixArray(b - 0x90)
    } else if b <= 0xbf {
        Marker::FixStr(b - 0xa0)
    } else if b == 0xc0 {
        Marker::Nil
    } else if b == 0xc1 {
        Marker::Reserved
    } else if b == 0xc2 {
        Marker::False
    } else if b == 0xc3 {
        Marker::True
    } else if b == 0xc4 {
        Marker::Bin8
    } else if b == 0xc5 {
        Marker::Bin16
    } else if b == 0xc6 {
        Marker::Bin32
    } else if b == 0xc7 {
        Marker::Ext8
    } else if b == 0xc8 {
        Marker::Ext16
    } else if b == 0xc9 {
        Marker::Ext32
    } else if b == 0xca {
        Marker::F32
    } else if b == 0xcb {
        Marker::F64
    } else if b == 0xcc {
        Marker::U8
    } else if b == 0xcd {
        Marker::U16
    } else if b == 0xce {
        Marker::U32
    } else if b == 0xcf {
        Marker::U64
    } else if b == 0xd0 {
        Marker::I8
    } else if b == 0xd1 {
        Marker::I16
    } else if b == 0xd2 {
        Marker::I32
    } else if b == 0xd3 {
        Marker::I64
    } else if b == 0xd4 {
        Marker::FixExt1
    } else if b == 0xd5 {
        Marker::FixExt2
    } else if b == 0xd6 {
        Marker::FixExt4
    } else if b == 0xd7 {
        Marker::FixExt8
    } else if b == 0xd8 {
        Marker::FixExt16
    } else if b == 0xd9 {
        Marker::Str8
    } else if b == 0xda {
        Marker::Str16
    } else if b == 0xdb {
        Marker::Str32
    } else if b == 0xdc {
        Marker::Array16
    } else if b == 0xdd {
        Marker::Array32
    } else if b == 0xde {
        Marker::Map16
    } else if b == 0xdf {
        Marker::Map32
    } else {
        Marker::FixNeg(b as i8)
    }
}

} // verus!
