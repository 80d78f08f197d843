//! Round trips and error behaviour of the byte codec.

use nvim_api::decode::decode_array_at;
use nvim_api::decode::decode_bool_at;
use nvim_api::decode::decode_dictionary_at;
use nvim_api::decode::decode_float_at;
use nvim_api::decode::decode_i64_at;
use nvim_api::decode::decode_special_at;
use nvim_api::decode::decode_string_at;
use nvim_api::decode_value;
use nvim_api::read_u16;
use nvim_api::read_u32;
use nvim_api::read_u8;
use nvim_api::BasicType;
use nvim_api::FromMsgpack;
use nvim_api::BasicTypeKind;
use nvim_api::Buffer;
use nvim_api::FloatBits;
use nvim_api::FromMsgpackError;
use nvim_api::Marker;
use nvim_api::MsgpackArrayWriter;
use nvim_api::MsgpackDictionaryWriter;
use nvim_api::SpecialType;
use nvim_api::Tabpage;
use nvim_api::ToMsgpack;
use nvim_api::Window;

fn encode(v: &BasicType) -> Vec<u8> {
    let mut w = Vec::new();
    v.to_msgpack(&mut w).expect("value fits the wire format");
    w
}

fn round_trip(v: BasicType) {
    let bytes = encode(&v);
    let (decoded, consumed) = decode_value(&bytes, 0).expect("decodes");
    assert_eq!(consumed, bytes.len());
    assert_eq!(decoded, v);
}

#[test]
fn round_trip_nil_and_booleans() {
    round_trip(BasicType::Nil);
    round_trip(BasicType::Boolean(true));
    round_trip(BasicType::Boolean(false));
}

#[test]
fn round_trip_integers_span_width_classes() {
    let cases: Vec<i64> = vec![
        0,
        1,
        127,
        128,
        255,
        256,
        65535,
        65536,
        0xffff_ffff,
        0x1_0000_0000,
        i64::MAX,
        -1,
        -32,
        -33,
        -128,
        -129,
        -32768,
        -32769,
        -0x8000_0000,
        -0x8000_0001,
        i64::MIN,
    ];
    for i in cases {
        round_trip(BasicType::Integer(i));
    }
}

#[test]
fn integer_encodings_pick_most_compact_class() {
    assert_eq!(encode(&BasicType::Integer(5)), vec![0xcc, 5]);
    assert_eq!(encode(&BasicType::Integer(256)), vec![0xcd, 1, 0]);
    assert_eq!(encode(&BasicType::Integer(65536)), vec![0xce, 0, 1, 0, 0]);
    assert_eq!(encode(&BasicType::Integer(-1)), vec![0xd0, 0xff]);
    assert_eq!(encode(&BasicType::Integer(-129)), vec![0xd1, 0xff, 0x7f]);
    assert_eq!(
        encode(&BasicType::Integer(i64::MIN)),
        vec![0xd3, 0x80, 0, 0, 0, 0, 0, 0, 0]
    );
}

#[test]
fn round_trip_floats() {
    for f in [0.0f64, 2.5, -1.0e300, f64::MIN_POSITIVE, f64::INFINITY] {
        round_trip(BasicType::Float(f.to_bits()));
    }
}

#[test]
fn float_encoding_is_double_width() {
    let bits = 2.5f64.to_bits();
    let bytes = encode(&BasicType::Float(bits));
    assert_eq!(bytes[0], 0xcb);
    assert_eq!(&bytes[1..], &bits.to_be_bytes());
}

#[test]
fn single_precision_widens_exactly() {
    let singles = [
        0.0f32,
        -0.0,
        1.0,
        2.5,
        -123.456,
        f32::MIN_POSITIVE,
        f32::from_bits(1),        // smallest subnormal
        f32::from_bits(0x7fffff), // largest subnormal
        f32::MAX,
        f32::INFINITY,
        f32::NEG_INFINITY,
        f32::from_bits(0x7fc0_0000), // quiet NaN
    ];
    for s in singles {
        let mut bytes = vec![0xca];
        bytes.extend_from_slice(&s.to_bits().to_be_bytes());
        let (bits, consumed) = decode_float_at(&bytes, 0).expect("decodes");
        assert_eq!(consumed, 5);
        assert_eq!(bits, (s as f64).to_bits(), "widening {s:?}");
    }
}

#[test]
fn round_trip_strings() {
    round_trip(BasicType::String(String::new()));
    round_trip(BasicType::String("hello".to_string()));
    round_trip(BasicType::String("héllo — ✓ 漢字".to_string()));
    round_trip(BasicType::String("x".repeat(31)));
    round_trip(BasicType::String("x".repeat(32)));
    round_trip(BasicType::String("x".repeat(255)));
    round_trip(BasicType::String("x".repeat(256)));
    round_trip(BasicType::String("x".repeat(70000)));
}

#[test]
fn invalid_utf8_payload_is_an_encoding_failure() {
    // FixStr of length 2 with an invalid continuation byte
    let bytes = vec![0xa2, 0xc3, 0x28];
    assert_eq!(
        decode_string_at(&bytes, 0),
        Err(FromMsgpackError::Utf8)
    );
    assert_eq!(decode_value(&bytes, 0), Err(FromMsgpackError::Utf8));
}

#[test]
fn round_trip_sequences() {
    round_trip(BasicType::Array(vec![]));
    round_trip(BasicType::Array(vec![BasicType::Nil]));
    round_trip(BasicType::Array(vec![
        BasicType::Integer(1),
        BasicType::Array(vec![BasicType::String("in".to_string())]),
        BasicType::Boolean(true),
    ]));
    let wide: Vec<BasicType> = (0..40).map(BasicType::Integer).collect();
    round_trip(BasicType::Array(wide));
}

#[test]
fn round_trip_mappings() {
    round_trip(BasicType::Dictionary(vec![]));
    round_trip(BasicType::Dictionary(vec![
        (
            BasicType::String("k".to_string()),
            BasicType::Integer(1),
        ),
        (
            BasicType::Integer(7),
            BasicType::Array(vec![BasicType::Nil]),
        ),
    ]));
}

#[test]
fn round_trip_handles_at_boundary_payloads() {
    for payload in [0i64, 1, i64::MAX, i64::MIN] {
        round_trip(BasicType::Object(SpecialType::Buffer(Buffer { bufnr: payload })));
        round_trip(BasicType::Object(SpecialType::Window(Window {
            window_id: payload,
        })));
        round_trip(BasicType::Object(SpecialType::Tabpage(Tabpage {
            handle: payload,
        })));
    }
}

#[test]
fn handle_encoding_is_fixed_extension_form() {
    let bytes = encode(&BasicType::Object(SpecialType::Window(Window { window_id: 3 })));
    assert_eq!(bytes[0], 0xd7);
    assert_eq!(bytes[1], Window::TYPE_ID as u8);
    assert_eq!(&bytes[2..], &3i64.to_be_bytes());
    assert_eq!(bytes.len(), 10);
}

#[test]
fn unknown_extension_tag_is_a_structural_mismatch() {
    let mut bytes = vec![0xd7, 9];
    bytes.extend_from_slice(&[0; 8]);
    assert_eq!(
        decode_value(&bytes, 0),
        Err(FromMsgpackError::Marker {
            expected: BasicTypeKind::Object,
            actual: Marker::FixExt8,
        })
    );
}

#[test]
fn truncated_streams_fail_with_transport_errors() {
    let values = [
        BasicType::Integer(300),
        BasicType::Float(2.5f64.to_bits()),
        BasicType::String("hello".to_string()),
        BasicType::Array(vec![BasicType::Integer(1), BasicType::String("ab".to_string())]),
        BasicType::Dictionary(vec![(
            BasicType::String("k".to_string()),
            BasicType::Integer(-70000),
        )]),
        BasicType::Object(SpecialType::Buffer(Buffer { bufnr: 5 })),
    ];
    for v in values {
        let bytes = encode(&v);
        for k in 0..bytes.len() {
            let cut = bytes[..k].to_vec();
            match decode_value(&cut, 0) {
                Err(FromMsgpackError::Io) | Err(FromMsgpackError::MarkerRead) => {}
                other => panic!("truncation at {k} gave {other:?}"),
            }
        }
    }
}

#[test]
fn wrong_category_reports_the_actual_marker() {
    // an integer marker where a boolean is expected
    let bytes = vec![0xcc, 5];
    assert_eq!(
        decode_bool_at(&bytes, 0),
        Err(FromMsgpackError::Marker {
            expected: BasicTypeKind::Boolean,
            actual: Marker::U8,
        })
    );
    // nil where an integer is expected
    assert_eq!(
        decode_i64_at(&vec![0xc0], 0),
        Err(FromMsgpackError::Marker {
            expected: BasicTypeKind::Integer,
            actual: Marker::Nil,
        })
    );
    // a string where a float is expected
    assert_eq!(
        decode_float_at(&vec![0xa1, 0x41], 0),
        Err(FromMsgpackError::Marker {
            expected: BasicTypeKind::Float,
            actual: Marker::FixStr(1),
        })
    );
    // a boolean where a string is expected
    assert_eq!(
        decode_string_at(&vec![0xc3], 0),
        Err(FromMsgpackError::Marker {
            expected: BasicTypeKind::String,
            actual: Marker::True,
        })
    );
    // a mapping where a sequence is expected
    assert_eq!(
        decode_array_at(&vec![0x80], 0),
        Err(FromMsgpackError::Marker {
            expected: BasicTypeKind::Array,
            actual: Marker::FixMap(0),
        })
    );
    // a sequence where a mapping is expected
    assert_eq!(
        decode_dictionary_at(&vec![0x90], 0),
        Err(FromMsgpackError::Marker {
            expected: BasicTypeKind::Dictionary,
            actual: Marker::FixArray(0),
        })
    );
    // an integer where a handle is expected
    assert_eq!(
        decode_special_at(&vec![0xcc, 5], 0),
        Err(FromMsgpackError::Marker {
            expected: BasicTypeKind::Object,
            actual: Marker::U8,
        })
    );
    // a fixed positive integer form, which the integer decoder's eight
    // width classes do not include
    assert_eq!(
        decode_i64_at(&vec![0x05], 0),
        Err(FromMsgpackError::Marker {
            expected: BasicTypeKind::Integer,
            actual: Marker::FixPos(5),
        })
    );
}

#[test]
fn empty_stream_fails_while_reading_the_marker() {
    assert_eq!(decode_value(&vec![], 0), Err(FromMsgpackError::MarkerRead));
}

#[test]
fn encoding_appends_to_an_existing_sink() {
    let mut w = vec![0xaa];
    BasicType::String("ab".to_string())
        .to_msgpack(&mut w)
        .expect("fits");
    assert_eq!(w, vec![0xaa, 0xa2, b'a', b'b']);
}

#[test]
fn float_bits_round_trip_through_their_typed_impls() {
    let v = FloatBits { bits: (-2.5f64).to_bits() };
    let mut w = Vec::new();
    v.to_msgpack(&mut w).expect("fits");
    assert_eq!(w[0], 0xcb);
    assert_eq!(FloatBits::from_msgpack(&w, 0), Ok((v, 9)));
}

#[test]
fn primitive_readers_read_big_endian() {
    let bytes = vec![0x12, 0x34, 0x56, 0x78, 0x9a];
    assert_eq!(read_u8(&bytes, 0), Ok((0x12, 1)));
    assert_eq!(read_u16(&bytes, 1), Ok((0x3456, 3)));
    assert_eq!(read_u32(&bytes, 0), Ok((0x12345678, 4)));
    assert_eq!(read_u32(&bytes, 2), Err(FromMsgpackError::Io));
    assert_eq!(read_u8(&bytes, 5), Err(FromMsgpackError::Io));
}

#[test]
fn streaming_writers_match_whole_value_encodings() {
    // stream three elements without materializing the collection
    let mut streamed = Vec::new();
    let mut aw = MsgpackArrayWriter::new(&mut streamed, 3);
    for i in 0..3i64 {
        aw.element(&mut streamed, &i).expect("fits");
    }
    assert!(aw.is_complete());
    let whole = encode(&BasicType::Array(vec![
        BasicType::Integer(0),
        BasicType::Integer(1),
        BasicType::Integer(2),
    ]));
    assert_eq!(streamed, whole);

    let mut streamed2 = Vec::new();
    let mut dw = MsgpackDictionaryWriter::new(&mut streamed2, 1);
    dw.entry(&mut streamed2, &"k".to_string(), &true)
        .expect("fits");
    assert!(dw.is_complete());
    let whole2 = encode(&BasicType::Dictionary(vec![(
        BasicType::String("k".to_string()),
        BasicType::Boolean(true),
    )]));
    assert_eq!(streamed2, whole2);
}

#[test]
fn typed_decoders_round_trip_their_impls() {
    let mut w = Vec::new();
    true.to_msgpack(&mut w).unwrap();
    assert_eq!(bool::from_msgpack(&w, 0), Ok((true, 1)));

    let mut w = Vec::new();
    (-5i64).to_msgpack(&mut w).unwrap();
    assert_eq!(i64::from_msgpack(&w, 0), Ok((-5, 2)));

    let mut w = Vec::new();
    "hi".to_string().to_msgpack(&mut w).unwrap();
    assert_eq!(String::from_msgpack(&w, 0), Ok(("hi".to_string(), 3)));

    let mut w = Vec::new();
    Buffer { bufnr: 9 }.to_msgpack(&mut w).unwrap();
    assert_eq!(Buffer::from_msgpack(&w, 0), Ok((Buffer { bufnr: 9 }, 10)));
    // a buffer tag where a window was asked for
    assert_eq!(
        Window::from_msgpack(&w, 0),
        Err(FromMsgpackError::Marker {
            expected: BasicTypeKind::Object,
            actual: Marker::FixExt8,
        })
    );

    let arr = encode(&BasicType::Array(vec![BasicType::Nil]));
    assert_eq!(
        <Vec<BasicType>>::from_msgpack(&arr, 0),
        Ok((vec![BasicType::Nil], 2))
    );

    // the element type is picked by the caller
    let nums = encode(&BasicType::Array(vec![
        BasicType::Integer(300),
        BasicType::Integer(-4),
    ]));
    assert_eq!(<Vec<i64>>::from_msgpack(&nums, 0), Ok((vec![300, -4], 6)));
    assert!(<Vec<bool>>::from_msgpack(&nums, 0).is_err());

    let map = encode(&BasicType::Dictionary(vec![]));
    assert_eq!(decode_dictionary_at(&map, 0), Ok((vec![], 1)));
}

#[test]
fn decode_resumes_at_the_returned_position() {
    let mut bytes = encode(&BasicType::Integer(1));
    bytes.extend(encode(&BasicType::Boolean(true)));
    let (first, p) = decode_value(&bytes, 0).unwrap();
    assert_eq!(first, BasicType::Integer(1));
    let (second, p2) = decode_value(&bytes, p).unwrap();
    assert_eq!(second, BasicType::Boolean(true));
    assert_eq!(p2, bytes.len());
}
