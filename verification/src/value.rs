//! The canonical tagged in-memory representation of every wire value.
//!
//! All wire integer widths are normalized into one 64-bit signed
//! representation; both wire float widths are normalized to double precision,
//! carried here as the 64-bit IEEE-754 bit pattern so that the codec is pure
//! byte-level logic.

use vstd::prelude::*;

verus! {

/// An ordered list of values.
pub type Array = Vec<BasicType>;

/// A mapping with unique keys; keys are arbitrary values, not only strings.
/// The pairs are kept in insertion order, which the decoder defines.
pub type Dictionary = Vec<(BasicType, BasicType)>;

/// An opaque remote buffer handle: a 64-bit payload under extension tag 0.
#[derive(Clone, Copy, Debug, PartialEq, Eq, Structural)]
pub struct Buffer {
    pub bufnr: i64,
}

impl Buffer {
    /// The wire extension tag of buffer handles.
    pub const TYPE_ID: i8 = 0;
}

/// An opaque remote window handle: a 64-bit payload under extension tag 1.
#[derive(Clone, Copy, Debug, PartialEq, Eq, Structural)]
pub struct Window {
    pub window_id: i64,
}

impl Window {
    /// The wire extension tag of window handles.
    pub const TYPE_ID: i8 = 1;
}

/// An opaque remote tabpage handle: a 64-bit payload under extension tag 2.
#[derive(Clone, Copy, Debug, PartialEq, Eq, Structural)]
pub struct Tabpage {
    pub handle: i64,
}

impl Tabpage {
    /// The wire extension tag of tabpage handles.
    pub const TYPE_ID: i8 = 2;
}

/// The closed set of opaque-handle wrapper kinds.
#[derive(Clone, Copy, Debug, PartialEq, Eq, Structural)]
pub enum SpecialType {
    Buffer(Buffer),
    Window(Window),
    Tabpage(Tabpage),
}

/// A wire value: the closed variant every encoded value decodes into.
///
/// `Float` holds the IEEE-754 double-precision bit pattern of the value; the
/// codec never interprets those bits, it only moves them.
#[derive(Debug, PartialEq, Eq)]
pub enum BasicType {
    Nil,
    Boolean(bool),
    Integer(i64),
    Float(u64),
    String(String),
    Array(Array),
    Dictionary(Dictionary),
    Object(SpecialType),
}

/// The category a value belongs to, reported by mismatch errors.
#[derive(Clone, Copy, Debug, PartialEq, Eq, Structural)]
pub enum BasicTypeKind {
    Nil,
    Boolean,
    Integer,
    Float,
    String,
    Array,
    Dictionary,
    Object,
}

/// The mathematical model of a [`BasicType`]: strings become character
/// sequences and the collections become sequences, so contracts can speak of
/// values independently of allocation.
pub enum SpecValue {
    Nil,
    Boolean(bool),
    Integer(i64),
    Float(u64),
    String(Seq<char>),
    Array(Seq<SpecValue>),
    Dictionary(Seq<(SpecValue, SpecValue)>),
    Object(SpecialType),
}

/// The model of one value.
pub open spec fn spec_value_of(v: BasicType) -> SpecValue
    decreases v,
{
    match v {
        BasicType::Nil => SpecValue::Nil,
        BasicType::Boolean(b) => SpecValue::Boolean(b),
        BasicType::Integer(i) => SpecValue::Integer(i),
        BasicType::Float(bits) => SpecValue::Float(bits),
        BasicType::String(s) => SpecValue::String(s@),
        BasicType::Array(a) => SpecValue::Array(spec_values_of(a@)),
        BasicType::Dictionary(d) => SpecValue::Dictionary(spec_entries_of(d@)),
        BasicType::Object(o) => SpecValue::Object(o),
    }
}

/// The model of a list of values, elementwise.
pub open spec fn spec_values_of(s: Seq<BasicType>) -> Seq<SpecValue>
    decreases s,
{
    if s.len() == 0 {
        Seq::empty()
    } else {
        seq![spec_value_of(s[0])] + spec_values_of(s.subrange(1, s.len() as int))
    }
}

/// The model of a list of key/value pairs, elementwise.
pub open spec fn spec_entries_of(s: Seq<(BasicType, BasicType)>) -> Seq<(SpecValue, SpecValue)>
    decreases s,
{
    if s.len() == 0 {
        Seq::empty()
    } else {
        seq![(spec_value_of(s[0].0), spec_value_of(s[0].1))]
            + spec_entries_of(s.subrange(1, s.len() as int))
    }
}

impl View for BasicType {
    type V = SpecValue;

    open spec fn view(&self) -> SpecValue {
        spec_value_of(*self)
    }
}

impl DeepView for BasicType {
    type V = SpecValue;

    open spec fn deep_view(&self) -> SpecValue {
        spec_value_of(*self)
    }
}

/// A double-precision float carried as its IEEE-754 bit pattern: the codec
/// moves the 64 bits without interpreting them.
#[derive(Clone, Copy, Debug, PartialEq, Eq, Structural)]
pub struct FloatBits {
    pub bits: u64,
}

impl View for FloatBits {
    type V = FloatBits;

    open spec fn view(&self) -> FloatBits {
        *self
    }
}

impl DeepView for FloatBits {
    type V = FloatBits;

    open spec fn deep_view(&self) -> FloatBits {
        *self
    }
}

impl View for Buffer {
    type V = Buffer;

    open spec fn view(&self) -> Buffer {
        *self
    }
}

impl DeepView for Buffer {
    type V = Buffer;

    open spec fn deep_view(&self) -> Buffer {
        *self
    }
}

impl View for Window {
    type V = Window;

    open spec fn view(&self) -> Window {
        *self
    }
}

impl DeepView for Window {
    type V = Window;

    open spec fn deep_view(&self) -> Window {
        *self
    }
}

impl View for Tabpage {
    type V = Tabpage;

    open spec fn view(&self) -> Tabpage {
        *self
    }
}

impl DeepView for Tabpage {
    type V = Tabpage;

    open spec fn deep_view(&self) -> Tabpage {
        *self
    }
}

impl View for SpecialType {
    type V = SpecialType;

    open spec fn view(&self) -> SpecialType {
        *self
    }
}

impl DeepView for SpecialType {
    type V = SpecialType;

    open spec fn deep_view(&self) -> SpecialType {
        *self
    }
}

/// `spec_values_of` maps elementwise.
pub broadcast proof fn lemma_spec_values_of(s: Seq<BasicType>)
    ensures
        #[trigger] spec_values_of(s).len() == s.len(),
        forall|i: int| 0 <= i < s.len() ==> spec_values_of(s)[i] == spec_value_of(s[i]),
    decreases s,
{
    if s.len() > 0 {
        lemma_spec_values_of(s.subrange(1, s.len() as int));
    }
}

/// `spec_entries_of` maps elementwise.
pub broadcast proof fn lemma_spec_entries_of(s: Seq<(BasicType, BasicType)>)
    ensures
        #[trigger] spec_entries_of(s).len() == s.len(),
        forall|i: int|
            0 <= i < s.len() ==> spec_entries_of(s)[i] == (
                spec_value_of(s[i].0),
                spec_value_of(s[i].1),
            ),
    decreases s,
{
    if s.len() > 0 {
        lemma_spec_entries_of(s.subrange(1, s.len() as int));
    }
}

} // verus!
