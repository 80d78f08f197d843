//! A verified MessagePack-style value codec and call-stub generator for a
//! remote-procedure surface described by a self-describing capability
//! manifest.
//!
//! The crate has three layers:
//! - a tagged value model ([`BasicType`]) with a byte codec for the wire
//!   encoding (markers, width classes, length prefixes, extension-tagged
//!   handles), proved to round-trip,
//! - a small type-name grammar parser for the manifest's textual type
//!   tokens,
//! - a deterministic generator that projects a decoded manifest onto closed
//!   descriptor structures and emits one typed call declaration per
//!   representable procedure.

pub mod bytes;
pub mod decode;
pub mod emit;
pub mod encode;
pub mod error;
pub mod floatbits;
pub mod generate;
pub mod grammar;
pub mod manifest;
pub mod marker;
pub mod registry;
pub mod roundtrip;
pub mod value;

pub use decode::FromMsgpack;
pub use decode::decode_value;
pub use decode::read_u8;
pub use decode::read_u16;
pub use decode::read_u32;
pub use encode::MsgpackArrayWriter;
pub use encode::MsgpackDictionaryWriter;
pub use encode::ToMsgpack;
pub use error::FromMsgpackError;
pub use error::ToMsgpackError;
pub use generate::GenerateError;
pub use generate::generate;
pub use generate::generate_from_manifest;
pub use grammar::TypeName;
pub use grammar::TypeNameError;
pub use grammar::parse_type_name;
pub use manifest::Function;
pub use manifest::ManifestError;
pub use manifest::Parameter;
pub use manifest::Root;
pub use manifest::UiEvent;
pub use manifest::Version;
pub use manifest::root_of;
pub use marker::Marker;
pub use value::Array;
pub use value::BasicType;
pub use value::BasicTypeKind;
pub use value::Buffer;
pub use value::Dictionary;
pub use value::FloatBits;
pub use value::SpecValue;
pub use value::SpecialType;
pub use value::Tabpage;
pub use value::Window;
