//! The encoder: from the value model to wire bytes.
//!
//! Each scalar encoder selects the most compact applicable width class for
//! its value; sequence and mapping encoders write a length prefix sized to
//! the collection's length class and then each element's own encoding in
//! order; handle encoders always write the fixed 8-byte big-endian form
//! under the kind's extension tag.

use vstd::prelude::*;
use vstd::utf8::encode_utf8;

use crate::bytes::be_bytes;
use crate::bytes::push_be;
use crate::error::ToMsgpackError;
use crate::value::BasicType;
use crate::value::SpecValue;
use crate::value::SpecialType;
use crate::value::spec_entries_of;
use crate::value::spec_value_of;
use crate::value::spec_values_of;

verus! {

/// The wire extension tag of a handle kind.
pub open spec fn spec_handle_tag(o: SpecialType) -> u8 {
    match o {
        SpecialType::Buffer(_) => 0,
        SpecialType::Window(_) => 1,
        SpecialType::Tabpage(_) => 2,
    }
}

/// The 64-bit payload of a handle.
pub open spec fn spec_handle_payload(o: SpecialType) -> i64 {
    match o {
        SpecialType::Buffer(b) => b.bufnr,
        SpecialType::Window(w) => w.window_id,
        SpecialType::Tabpage(t) => t.handle,
    }
}

/// The encoding of an integer: the most compact of the eight width classes
/// (unsigned for non-negative values, two's-complement signed otherwise).
pub open spec fn spec_enc_int(i: i64) -> Seq<u8> {
    if 0 <= i < 0x100 {
        seq![0xccu8] + be_bytes(i as nat, 1)
    } else if 0x100 <= i < 0x1_0000 {
        seq![0xcdu8] + be_bytes(i as nat, 2)
    } else if 0x1_0000 <= i < 0x1_0000_0000 {
        seq![0xceu8] + be_bytes(i as nat, 4)
    } else if i >= 0x1_0000_0000 {
        seq![0xcfu8] + be_bytes(i as nat, 8)
    } else if -0x80 <= i < 0 {
        seq![0xd0u8] + be_bytes((i + 0x100) as nat, 1)
    } else if -0x8000 <= i < -0x80 {
        seq![0xd1u8] + be_bytes((i + 0x1_0000) as nat, 2)
    } else if -0x8000_0000 <= i < -0x8000 {
        seq![0xd2u8] + be_bytes((i + 0x1_0000_0000) as nat, 4)
    } else {
        seq![0xd3u8] + be_bytes((i as u64) as nat, 8)
    }
}

/// The length prefix of a string of `n` UTF-8 bytes.
pub open spec fn spec_str_prefix(n: nat) -> Seq<u8> {
    if n < 32 {
        seq![(0xa0 + n) as u8]
    } else if n < 0x100 {
        seq![0xd9u8] + be_bytes(n, 1)
    } else if n < 0x1_0000 {
        seq![0xdau8] + be_bytes(n, 2)
    } else {
        seq![0xdbu8] + be_bytes(n, 4)
    }
}

/// The length prefix of a sequence of `n` elements.
pub open spec fn spec_array_prefix(n: nat) -> Seq<u8> {
    if n < 16 {
        seq![(0x90 + n) as u8]
    } else if n < 0x1_0000 {
        seq![0xdcu8] + be_bytes(n, 2)
    } else {
        seq![0xddu8] + be_bytes(n, 4)
    }
}

/// The length prefix of a mapping of `n` key/value pairs.
pub open spec fn spec_map_prefix(n: nat) -> Seq<u8> {
    if n < 16 {
        seq![(0x80 + n) as u8]
    } else if n < 0x1_0000 {
        seq![0xdeu8] + be_bytes(n, 2)
    } else {
        seq![0xdfu8] + be_bytes(n, 4)
    }
}

/// The encoding of a handle: an 8-byte big-endian extension payload under
/// the kind's tag.
pub open spec fn spec_enc_handle(o: SpecialType) -> Seq<u8> {
    seq![0xd7u8, spec_handle_tag(o)] + be_bytes((spec_handle_payload(o) as u64) as nat, 8)
}

/// The encoding of one value.
pub open spec fn spec_enc(v: SpecValue) -> Seq<u8>
    decreases v,
{
    match v {
        SpecValue::Nil => seq![0xc0u8],
        SpecValue::Boolean(b) => if b {
            seq![0xc3u8]
        } else {
            seq![0xc2u8]
        },
        SpecValue::Integer(i) => spec_enc_int(i),
        SpecValue::Float(bits) => seq![0xcbu8] + be_bytes(bits as nat, 8),
        SpecValue::String(s) => spec_str_prefix(encode_utf8(s).len()) + encode_utf8(s),
        SpecValue::Array(s) => spec_array_prefix(s.len()) + spec_enc_values(s),
        SpecValue::Dictionary(es) => spec_map_prefix(es.len()) + spec_enc_entries(es),
        SpecValue::Object(o) => spec_enc_handle(o),
    }
}

/// The concatenated encodings of a sequence of values.
pub open spec fn spec_enc_values(s: Seq<SpecValue>) -> Seq<u8>
    decreases s,
{
    if s.len() == 0 {
        Seq::empty()
    } else {
        spec_enc(s[0]) + spec_enc_values(s.subrange(1, s.len() as int))
    }
}

/// The concatenated encodings of a sequence of key/value pairs, key first.
pub open spec fn spec_enc_entries(es: Seq<(SpecValue, SpecValue)>) -> Seq<u8>
    decreases es,
{
    if es.len() == 0 {
        Seq::empty()
    } else {
        spec_enc(es[0].0) + spec_enc(es[0].1) + spec_enc_entries(es.subrange(1, es.len() as int))
    }
}

/// Whether a value fits the wire format's length classes: every string,
/// sequence and mapping in it is shorter than `2^32`.
pub open spec fn spec_fits(v: SpecValue) -> bool
    decreases v,
{
    match v {
        SpecValue::String(s) => encode_utf8(s).len() < 0x1_0000_0000,
        SpecValue::Array(s) => s.len() < 0x1_0000_0000 && spec_fits_values(s),
        SpecValue::Dictionary(es) => es.len() < 0x1_0000_0000 && spec_fits_entries(es),
        _ => true,
    }
}

pub open spec fn spec_fits_values(s: Seq<SpecValue>) -> bool
    decreases s,
{
    if s.len() == 0 {
        true
    } else {
        spec_fits(s[0]) && spec_fits_values(s.subrange(1, s.len() as int))
    }
}

pub open spec fn spec_fits_entries(es: Seq<(SpecValue, SpecValue)>) -> bool
    decreases es,
{
    if es.len() == 0 {
        true
    } else {
        spec_fits(es[0].0) && spec_fits(es[0].1) && spec_fits_entries(
            es.subrange(1, es.len() as int),
        )
    }
}

/// `spec_fits_values` holds exactly when every element fits.
pub proof fn lemma_fits_values_elementwise(s: Seq<SpecValue>)
    ensures
        spec_fits_values(s) <==> (forall|i: int| 0 <= i < s.len() ==> spec_fits(#[trigger] s[i])),
    decreases s,
{
    if s.len() > 0 {
        lemma_fits_values_elementwise(s.subrange(1, s.len() as int));
        assert(forall|i: int|
            1 <= i < s.len() ==> s.subrange(1, s.len() as int)[i - 1] == #[trigger] s[i]);
    }
}

/// `spec_fits_entries` holds exactly when every key and value fits.
pub proof fn lemma_fits_entries_elementwise(es: Seq<(SpecValue, SpecValue)>)
    ensures
        spec_fits_entries(es) <==> (forall|i: int|
            0 <= i < es.len() ==> spec_fits((#[trigger] es[i]).0) && spec_fits(es[i].1)),
    decreases es,
{
    if es.len() > 0 {
        lemma_fits_entries_elementwise(es.subrange(1, es.len() as int));
        assert(forall|i: int|
            1 <= i < es.len() ==> es.subrange(1, es.len() as int)[i - 1] == #[trigger] es[i]);
    }
}

/// Extending a prefix of a value sequence by one element appends that
/// element's encoding.
pub proof fn lemma_enc_values_take_succ(s: Seq<SpecValue>, i: int)
    requires
        0 <= i < s.len(),
    ensures
        spec_enc_values(s.subrange(0, i + 1)) == spec_enc_values(s.subrange(0, i)) + spec_enc(
            s[i],
        ),
    decreases i,
{
    if i == 0 {
        assert(s.subrange(0, 1)[0] == s[0]);
        assert(s.subrange(0, 1).subrange(1, 1) =~= Seq::<SpecValue>::empty());
        assert(s.subrange(0, 0) =~= Seq::<SpecValue>::empty());
        assert(spec_enc_values(s.subrange(0, 1)) =~= spec_enc_values(s.subrange(0, 0)) + spec_enc(
            s[0],
        ));
    } else {
        let t = s.subrange(1, s.len() as int);
        lemma_enc_values_take_succ(t, i - 1);
        assert(s.subrange(0, i + 1).subrange(1, i + 1) =~= t.subrange(0, i));
        assert(s.subrange(0, i).subrange(1, i) =~= t.subrange(0, i - 1));
        assert(s.subrange(0, i + 1)[0] == s[0]);
        assert(s.subrange(0, i)[0] == s[0]);
        assert(t[i - 1] == s[i]);
        assert(spec_enc_values(s.subrange(0, i + 1)) == spec_enc(s[0]) + spec_enc_values(
            t.subrange(0, i),
        ));
        assert(spec_enc(s[0]) + (spec_enc_values(t.subrange(0, i - 1)) + spec_enc(t[i - 1]))
            =~= (spec_enc(s[0]) + spec_enc_values(t.subrange(0, i - 1))) + spec_enc(t[i - 1]));
    }
}

/// Extending a prefix of an entry sequence by one pair appends the key's and
/// the value's encodings.
pub proof fn lemma_enc_entries_take_succ(es: Seq<(SpecValue, SpecValue)>, i: int)
    requires
        0 <= i < es.len(),
    ensures
        spec_enc_entries(es.subrange(0, i + 1)) == spec_enc_entries(es.subrange(0, i)) + spec_enc(
            es[i].0,
        ) + spec_enc(es[i].1),
    decreases i,
{
    if i == 0 {
        assert(es.subrange(0, 1)[0] == es[0]);
        assert(es.subrange(0, 1).subrange(1, 1) =~= Seq::<(SpecValue, SpecValue)>::empty());
        assert(es.subrange(0, 0) =~= Seq::<(SpecValue, SpecValue)>::empty());
        assert(spec_enc_entries(es.subrange(0, 1)) =~= spec_enc_entries(es.subrange(0, 0))
            + spec_enc(es[0].0) + spec_enc(es[0].1));
    } else {
        let t = es.subrange(1, es.len() as int);
        lemma_enc_entries_take_succ(t, i - 1);
        assert(es.subrange(0, i + 1).subrange(1, i + 1) =~= t.subrange(0, i));
        assert(es.subrange(0, i).subrange(1, i) =~= t.subrange(0, i - 1));
        assert(es.subrange(0, i + 1)[0] == es[0]);
        assert(es.subrange(0, i)[0] == es[0]);
        assert(t[i - 1] == es[i]);
        assert(spec_enc_entries(es.subrange(0, i + 1)) == spec_enc(es[0].0) + spec_enc(es[0].1)
            + spec_enc_entries(t.subrange(0, i)));
        assert(spec_enc(es[0].0) + spec_enc(es[0].1) + (spec_enc_entries(t.subrange(0, i - 1))
            + spec_enc(t[i - 1].0) + spec_enc(t[i - 1].1)) =~= (spec_enc(es[0].0) + spec_enc(
            es[0].1,
        ) + spec_enc_entries(t.subrange(0, i - 1))) + spec_enc(t[i - 1].0) + spec_enc(t[i - 1].1));
    }
}

/// Anything that can be laid out in the wire encoding.
pub trait ToMsgpack {
    /// The bytes this value encodes to.
    spec fn wire_bytes(&self) -> Seq<u8>;

    /// Whether the value fits the wire format's length classes.
    spec fn wire_fits(&self) -> bool;

    /// Appends the value's encoding to `w`; on failure `w` is unchanged.
    fn to_msgpack(&self, w: &mut Vec<u8>) -> (r: Result<(), ToMsgpackError>)
        ensures
            r is Ok <==> self.wire_fits(),
            r is Ok ==> final(w)@ == old(w)@ + self.wire_bytes(),
            r is Err ==> final(w)@ == old(w)@,
    ;
}

/// Writes the fixed 8-byte big-endian extension form under `type_id`.
fn write_special_type(w: &mut Vec<u8>, type_id: i8, data: i64)
    ensures
        final(w)@ == old(w)@ + seq![0xd7u8, type_id as u8] + be_bytes(((data as u64) as nat), 8),
{
    w.push(0xd7);
    w.push(type_id as u8);
    push_be(w, data as u64, 8);
    assert(final(w)@ =~= old(w)@ + seq![0xd7u8, type_id as u8] + be_bytes(((data as u64) as nat), 8));
}

/// Writes the most compact width class that holds `i`.
fn encode_int(w: &mut Vec<u8>, i: i64)
    ensures
        final(w)@ == old(w)@ + spec_enc_int(i),
{
    if i >= 0 {
        if i < 0x100 {
            w.push(0xcc);
            push_be(w, i as u64, 1);
        } else if i < 0x1_0000 {
            w.push(0xcd);
            push_be(w, i as u64, 2);
        } else if i < 0x1_0000_0000 {
            w.push(0xce);
            push_be(w, i as u64, 4);
        } else {
            w.push(0xcf);
            push_be(w, i as u64, 8);
        }
    } else {
        if i >= -0x80 {
            w.push(0xd0);
            push_be(w, (i + 0x100) as u64, 1);
        } else if i >= -0x8000 {
            w.push(0xd1);
            push_be(w, (i + 0x1_0000) as u64, 2);
        } else if i >= -0x8000_0000 {
            w.push(0xd2);
            push_be(w, (i + 0x1_0000_0000) as u64, 4);
        } else {
            w.push(0xd3);
            push_be(w, i as u64, 8);
        }
    }
    assert(final(w)@ =~= old(w)@ + spec_enc_int(i));
}

/// Writes a string's length prefix and UTF-8 bytes.
fn encode_str(w: &mut Vec<u8>, s: &str)
    requires
        encode_utf8(s@).len() < 0x1_0000_0000,
    ensures
        final(w)@ == old(w)@ + spec_enc(SpecValue::String(s@)),
{
    let bs = s.as_bytes();
    let n = bs.len();
    if n < 32 {
        w.push(0xa0 + n as u8);
    } else if n < 0x100 {
        w.push(0xd9);
        push_be(w, n as u64, 1);
    } else if n < 0x1_0000 {
        w.push(0xda);
        push_be(w, n as u64, 2);
    } else {
        w.push(0xdb);
        push_be(w, n as u64, 4);
    }
    w.extend_from_slice(bs);
    assert(final(w)@ =~= old(w)@ + spec_enc(SpecValue::String(s@)));
}

/// Whether every string, sequence and mapping in the value is shorter than
/// the wire format's largest length class.
#[verifier::loop_isolation(false)]
pub fn value_fits(v: &BasicType) -> (r: bool)
    ensures
        r == spec_fits(v@),
    decreases v@,
{
    match v {
        BasicType::String(s) => (s.as_str().as_bytes().len() as u64) < 0x1_0000_0000,
        BasicType::Array(a) => {
            proof {
                crate::value::lemma_spec_values_of(a@);
                lemma_fits_values_elementwise(spec_values_of(a@));
            }
            if !((a.len() as u64) < 0x1_0000_0000) {
                return false;
            }
            let n = a.len();
            let mut i: usize = 0;
            while i < n
                invariant
                    i <= n,
                    n == a@.len(),
                    spec_values_of(a@).len() == n,
                    forall|j: int|
                        0 <= j < a@.len() ==> spec_values_of(a@)[j] == spec_value_of(a@[j]),
                    forall|j: int| 0 <= j < i ==> spec_fits(#[trigger] spec_values_of(a@)[j]),
                decreases n - i,
            {
                proof {
                    assert(decreases_to!(v@ => v@->Array_0));
                    assert(decreases_to!(spec_values_of(a@) => spec_values_of(a@)[i as int]));
                }
                if !value_fits(&a[i]) {
                    proof {
                        lemma_fits_values_elementwise(spec_values_of(a@));
                    }
                    return false;
                }
                i = i + 1;
            }
            proof {
                lemma_fits_values_elementwise(spec_values_of(a@));
            }
            true
        },
        BasicType::Dictionary(d) => {
            proof {
                crate::value::lemma_spec_entries_of(d@);
                lemma_fits_entries_elementwise(spec_entries_of(d@));
            }
            if !((d.len() as u64) < 0x1_0000_0000) {
                return false;
            }
            let n = d.len();
            let mut i: usize = 0;
            while i < n
                invariant
                    i <= n,
                    n == d@.len(),
                    spec_entries_of(d@).len() == n,
                    forall|j: int|
                        0 <= j < d@.len() ==> spec_entries_of(d@)[j] == (
                            spec_value_of(d@[j].0),
                            spec_value_of(d@[j].1),
                        ),
                    forall|j: int|
                        0 <= j < i ==> spec_fits((#[trigger] spec_entries_of(d@)[j]).0)
                            && spec_fits(spec_entries_of(d@)[j].1),
                decreases n - i,
            {
                proof {
                    assert(decreases_to!(v@ => v@->Dictionary_0));
                    assert(decreases_to!(spec_entries_of(d@) => spec_entries_of(d@)[i as int]));
                    assert(decreases_to!(spec_entries_of(d@)[i as int] => spec_entries_of(
                        d@,
                    )[i as int].0));
                    assert(decreases_to!(spec_entries_of(d@)[i as int] => spec_entries_of(
                        d@,
                    )[i as int].1));
                }
                if !value_fits(&d[i].0) {
                    proof {
                        lemma_fits_entries_elementwise(spec_entries_of(d@));
                    }
                    return false;
                }
                if !value_fits(&d[i].1) {
                    proof {
                        lemma_fits_entries_elementwise(spec_entries_of(d@));
                    }
                    return false;
                }
                i = i + 1;
            }
            proof {
                lemma_fits_entries_elementwise(spec_entries_of(d@));
            }
            true
        },
        _ => true,
    }
}

/// Writes one value's encoding. The spine of the encoder: scalars pick their
/// width class, collections write a length prefix and stream their elements,
/// handles write the fixed extension form.
#[verifier::loop_isolation(false)]
#[verifier::rlimit(60)]
fn encode_value(w: &mut Vec<u8>, v: &BasicType)
    requires
        spec_fits(v@),
    ensures
        final(w)@ == old(w)@ + spec_enc(v@),
    decreases v@,
{
    match v {
        BasicType::Nil => {
            w.push(0xc0);
            assert(final(w)@ =~= old(w)@ + spec_enc(v@));
        },
        BasicType::Boolean(b) => {
            if *b {
                w.push(0xc3);
            } else {
                w.push(0xc2);
            }
            assert(final(w)@ =~= old(w)@ + spec_enc(v@));
        },
        BasicType::Integer(i) => {
            encode_int(w, *i);
        },
        BasicType::Float(bits) => {
            w.push(0xcb);
            push_be(w, *bits, 8);
            assert(final(w)@ =~= old(w)@ + spec_enc(v@));
        },
        BasicType::String(s) => {
            encode_str(w, s.as_str());
        },
        BasicType::Array(a) => {
            let ghost sv = spec_values_of(a@);
            proof {
                crate::value::lemma_spec_values_of(a@);
                lemma_fits_values_elementwise(sv);
            }
            let n = a.len();
            if n < 16 {
                w.push(0x90 + n as u8);
            } else if n < 0x1_0000 {
                w.push(0xdc);
                push_be(w, n as u64, 2);
            } else {
                w.push(0xdd);
                push_be(w, n as u64, 4);
            }
            assert(w@ =~= old(w)@ + spec_array_prefix(a@.len()));
            let mut i: usize = 0;
            proof {
                assert(sv.subrange(0, 0) =~= Seq::<SpecValue>::empty());
            }
            while i < n
                invariant
                    i <= n,
                    n == a@.len(),
                    sv == spec_values_of(a@),
                    sv.len() == n,
                    forall|j: int| 0 <= j < a@.len() ==> sv[j] == spec_value_of(a@[j]),
                    forall|j: int| 0 <= j < a@.len() ==> spec_fits(#[trigger] sv[j]),
                    w@ == old(w)@ + spec_array_prefix(a@.len()) + spec_enc_values(
                        sv.subrange(0, i as int),
                    ),
                decreases n - i,
            {
                proof {
                    assert(decreases_to!(v@ => v@->Array_0));
                    assert(decreases_to!(spec_values_of(a@) => spec_values_of(a@)[i as int]));
                }
                encode_value(w, &a[i]);
                i = i + 1;
                proof {
                    lemma_enc_values_take_succ(sv, i - 1);
                    assert(w@ =~= old(w)@ + spec_array_prefix(a@.len()) + spec_enc_values(
                        sv.subrange(0, i as int),
                    ));
                }
            }
            proof {
                assert(sv.subrange(0, n as int) =~= sv);
                assert(final(w)@ =~= old(w)@ + spec_enc(v@));
            }
        },
        BasicType::Dictionary(d) => {
            let ghost se = spec_entries_of(d@);
            proof {
                crate::value::lemma_spec_entries_of(d@);
                lemma_fits_entries_elementwise(se);
            }
            let n = d.len();
            if n < 16 {
                w.push(0x80 + n as u8);
            } else if n < 0x1_0000 {
                w.push(0xde);
                push_be(w, n as u64, 2);
            } else {
                w.push(0xdf);
                push_be(w, n as u64, 4);
            }
            assert(w@ =~= old(w)@ + spec_map_prefix(d@.len()));
            let mut i: usize = 0;
            proof {
                assert(se.subrange(0, 0) =~= Seq::<(SpecValue, SpecValue)>::empty());
            }
            while i < n
                invariant
                    i <= n,
                    n == d@.len(),
                    se == spec_entries_of(d@),
                    se.len() == n,
                    forall|j: int|
                        0 <= j < d@.len() ==> se[j] == (
                            spec_value_of(d@[j].0),
                            spec_value_of(d@[j].1),
                        ),
                    forall|j: int|
                        0 <= j < d@.len() ==> spec_fits((#[trigger] se[j]).0) && spec_fits(
                            se[j].1,
                        ),
                    w@ == old(w)@ + spec_map_prefix(d@.len()) + spec_enc_entries(
                        se.subrange(0, i as int),
                    ),
                decreases n - i,
            {
                proof {
                    assert(decreases_to!(v@ => v@->Dictionary_0));
                    assert(decreases_to!(spec_entries_of(d@) => spec_entries_of(d@)[i as int]));
                    assert(decreases_to!(spec_entries_of(d@)[i as int] => spec_entries_of(
                        d@,
                    )[i as int].0));
                    assert(decreases_to!(spec_entries_of(d@)[i as int] => spec_entries_of(
                        d@,
                    )[i as int].1));
                }
                encode_value(w, &d[i].0);
                encode_value(w, &d[i].1);
                i = i + 1;
                proof {
                    lemma_enc_entries_take_succ(se, i - 1);
                    assert(w@ =~= old(w)@ + spec_map_prefix(d@.len()) + spec_enc_entries(
                        se.subrange(0, i as int),
                    ));
                }
            }
            proof {
                assert(se.subrange(0, n as int) =~= se);
                assert(final(w)@ =~= old(w)@ + spec_enc(v@));
            }
        },
        BasicType::Object(o) => {
            match o {
                SpecialType::Buffer(b) => write_special_type(w, crate::value::Buffer::TYPE_ID, b.bufnr),
                SpecialType::Window(win) => write_special_type(
                    w,
                    crate::value::Window::TYPE_ID,
                    win.window_id,
                ),
                SpecialType::Tabpage(t) => write_special_type(
                    w,
                    crate::value::Tabpage::TYPE_ID,
                    t.handle,
                ),
            }
            assert(final(w)@ =~= old(w)@ + spec_enc(v@));
        },
    }
}

/// Writes the length prefix of a sequence of `n` elements.
fn write_array_len(w: &mut Vec<u8>, n: u32)
    ensures
        final(w)@ == old(w)@ + spec_array_prefix(n as nat),
{
    if n < 16 {
        w.push(0x90 + n as u8);
    } else if n < 0x1_0000 {
        w.push(0xdc);
        push_be(w, n as u64, 2);
    } else {
        w.push(0xdd);
        push_be(w, n as u64, 4);
    }
    assert(final(w)@ =~= old(w)@ + spec_array_prefix(n as nat));
}

/// Writes the length prefix of a mapping of `n` key/value pairs.
fn write_map_len(w: &mut Vec<u8>, n: u32)
    ensures
        final(w)@ == old(w)@ + spec_map_prefix(n as nat),
{
    if n < 16 {
        w.push(0x80 + n as u8);
    } else if n < 0x1_0000 {
        w.push(0xde);
        push_be(w, n as u64, 2);
    } else {
        w.push(0xdf);
        push_be(w, n as u64, 4);
    }
    assert(final(w)@ =~= old(w)@ + spec_map_prefix(n as nat));
}

/// A streaming sequence encoder: writes the length prefix up front, then
/// takes each element's encoding as it is produced, so a collection never
/// has to be realized in memory first. Exactly `declared` elements are owed
/// once the prefix is written; `written` counts those streamed so far.
pub struct MsgpackArrayWriter {
    pub declared: u32,
    pub written: u32,
}

impl MsgpackArrayWriter {
    /// Opens a sequence of `len` elements: writes its length prefix.
    pub fn new(w: &mut Vec<u8>, len: u32) -> (r: Self)
        ensures
            final(w)@ == old(w)@ + spec_array_prefix(len as nat),
            r.declared == len,
            r.written == 0,
    {
        write_array_len(w, len);
        MsgpackArrayWriter { declared: len, written: 0 }
    }

    /// Streams one element's encoding; on failure the sink is unchanged and
    /// the element still owed.
    pub fn element<T: ToMsgpack>(&mut self, w: &mut Vec<u8>, v: &T) -> (r: Result<
        (),
        ToMsgpackError,
    >)
        requires
            old(self).written < old(self).declared,
        ensures
            final(self).declared == old(self).declared,
            r is Ok <==> v.wire_fits(),
            r is Ok ==> final(w)@ == old(w)@ + v.wire_bytes(),
            r is Ok ==> final(self).written == old(self).written + 1,
            r is Err ==> final(w)@ == old(w)@ && final(self).written == old(self).written,
    {
        match v.to_msgpack(w) {
            Ok(_) => {
                self.written = self.written + 1;
                Ok(())
            },
            Err(e) => Err(e),
        }
    }

    /// Whether every declared element has been streamed.
    pub fn is_complete(&self) -> (r: bool)
        ensures
            r == (self.written == self.declared),
    {
        self.written == self.declared
    }
}

/// A streaming mapping encoder: the length prefix up front, then each
/// key/value pair's encodings, key first, as they are produced.
pub struct MsgpackDictionaryWriter {
    pub declared: u32,
    pub written: u32,
}

impl MsgpackDictionaryWriter {
    /// Opens a mapping of `len` pairs: writes its length prefix.
    pub fn new(w: &mut Vec<u8>, len: u32) -> (r: Self)
        ensures
            final(w)@ == old(w)@ + spec_map_prefix(len as nat),
            r.declared == len,
            r.written == 0,
    {
        write_map_len(w, len);
        MsgpackDictionaryWriter { declared: len, written: 0 }
    }

    /// Streams one pair's encodings, key first; on failure the sink holds
    /// at most the key's bytes and the pair is still owed.
    pub fn entry<K: ToMsgpack, V: ToMsgpack>(
        &mut self,
        w: &mut Vec<u8>,
        k: &K,
        v: &V,
    ) -> (r: Result<(), ToMsgpackError>)
        requires
            old(self).written < old(self).declared,
        ensures
            final(self).declared == old(self).declared,
            r is Ok <==> k.wire_fits() && v.wire_fits(),
            r is Ok ==> final(w)@ == old(w)@ + k.wire_bytes() + v.wire_bytes(),
            r is Ok ==> final(self).written == old(self).written + 1,
            r is Err ==> final(self).written == old(self).written,
            r is Err ==> final(w)@ == old(w)@ || final(w)@ == old(w)@ + k.wire_bytes(),
    {
        match k.to_msgpack(w) {
            Ok(_) => {},
            Err(e) => {
                return Err(e);
            },
        }
        match v.to_msgpack(w) {
            Ok(_) => {
                self.written = self.written + 1;
                Ok(())
            },
            Err(e) => Err(e),
        }
    }

    /// Whether every declared pair has been streamed.
    pub fn is_complete(&self) -> (r: bool)
        ensures
            r == (self.written == self.declared),
    {
        self.written == self.declared
    }
}

impl ToMsgpack for bool {
    open spec fn wire_bytes(&self) -> Seq<u8> {
        spec_enc(SpecValue::Boolean(*self))
    }

    open spec fn wire_fits(&self) -> bool {
        true
    }

    /// Writes exactly one of the two boolean marker forms.
    fn to_msgpack(&self, w: &mut Vec<u8>) -> Result<(), ToMsgpackError> {
        if *self {
            w.push(0xc3);
        } else {
            w.push(0xc2);
        }
        assert(w@ =~= old(w)@ + self.wire_bytes());
        Ok(())
    }
}

impl ToMsgpack for i64 {
    open spec fn wire_bytes(&self) -> Seq<u8> {
        spec_enc_int(*self)
    }

    open spec fn wire_fits(&self) -> bool {
        true
    }

    /// Writes the most compact width class that holds the value.
    fn to_msgpack(&self, w: &mut Vec<u8>) -> Result<(), ToMsgpackError> {
        encode_int(w, *self);
        Ok(())
    }
}

impl ToMsgpack for crate::value::FloatBits {
    open spec fn wire_bytes(&self) -> Seq<u8> {
        spec_enc(SpecValue::Float(self.bits))
    }

    open spec fn wire_fits(&self) -> bool {
        true
    }

    /// Writes the double-precision form: the float marker and the eight
    /// big-endian bytes of the bit pattern.
    fn to_msgpack(&self, w: &mut Vec<u8>) -> Result<(), ToMsgpackError> {
        w.push(0xcb);
        push_be(w, self.bits, 8);
        assert(w@ =~= old(w)@ + self.wire_bytes());
        Ok(())
    }
}

impl ToMsgpack for String {
    open spec fn wire_bytes(&self) -> Seq<u8> {
        spec_enc(SpecValue::String(self@))
    }

    open spec fn wire_fits(&self) -> bool {
        encode_utf8(self@).len() < 0x1_0000_0000
    }

    /// Writes a length prefix sized to the string's UTF-8 length class, then
    /// the UTF-8 bytes themselves.
    fn to_msgpack(&self, w: &mut Vec<u8>) -> Result<(), ToMsgpackError> {
        if !((self.as_str().as_bytes().len() as u64) < 0x1_0000_0000) {
            return Err(ToMsgpackError::TooLong);
        }
        encode_str(w, self.as_str());
        Ok(())
    }
}

impl ToMsgpack for crate::value::Buffer {
    open spec fn wire_bytes(&self) -> Seq<u8> {
        spec_enc_handle(SpecialType::Buffer(*self))
    }

    open spec fn wire_fits(&self) -> bool {
        true
    }

    /// Writes the 8-byte extension form under the buffer tag.
    fn to_msgpack(&self, w: &mut Vec<u8>) -> Result<(), ToMsgpackError> {
        write_special_type(w, Self::TYPE_ID, self.bufnr);
        Ok(())
    }
}

impl ToMsgpack for crate::value::Window {
    open spec fn wire_bytes(&self) -> Seq<u8> {
        spec_enc_handle(SpecialType::Window(*self))
    }

    open spec fn wire_fits(&self) -> bool {
        true
    }

    /// Writes the 8-byte extension form under the window tag.
    fn to_msgpack(&self, w: &mut Vec<u8>) -> Result<(), ToMsgpackError> {
        write_special_type(w, Self::TYPE_ID, self.window_id);
        Ok(())
    }
}

impl ToMsgpack for crate::value::Tabpage {
    open spec fn wire_bytes(&self) -> Seq<u8> {
        spec_enc_handle(SpecialType::Tabpage(*self))
    }

    open spec fn wire_fits(&self) -> bool {
        true
    }

    /// Writes the 8-byte extension form under the tabpage tag.
    fn to_msgpack(&self, w: &mut Vec<u8>) -> Result<(), ToMsgpackError> {
        write_special_type(w, Self::TYPE_ID, self.handle);
        Ok(())
    }
}

impl ToMsgpack for BasicType {
    open spec fn wire_bytes(&self) -> Seq<u8> {
        spec_enc(self@)
    }

    open spec fn wire_fits(&self) -> bool {
        spec_fits(self@)
    }

    /// Writes the value's whole encoding, or fails with the sink unchanged
    /// when some part of the value exceeds its length class.
    fn to_msgpack(&self, w: &mut Vec<u8>) -> Result<(), ToMsgpackError> {
        if !value_fits(self) {
            return Err(ToMsgpackError::TooLong);
        }
        encode_value(w, self);
        Ok(())
    }
}

} // verus!
