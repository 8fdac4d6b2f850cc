//! A predictable, fixed-layout binary codec with a static size oracle.
//!
//! Values are encoded with no length prefixes and no self-description: the
//! receiver must already know the type. Every supported type has a maximum
//! encoded size that can be computed before any value exists, so callers can
//! size buffers statically — the design aim for embedded settings where
//! dynamic allocation is unwelcome.
//!
//! The supported shapes are a closed set: integers of 8 to 128 bits, floats
//! by bit pattern, booleans, unit, options, fixed arrays, tuples and structs,
//! and enums of at most 256 variants. Runtime-length sequences, maps and
//! strings are not encodable, and `char` is deliberately rejected.
//!
//! [`ser::serialize`] writes a [`Value`] into a caller-sized buffer;
//! [`de::deserialize`] reads one back and returns the untouched remainder;
//! [`size::max_size`] bounds the encoded size of any value of a [`Shape`]
//! before any value exists. The laws tying these together — round trip, size
//! bound, self-delimiting concatenation, and the exact buffer boundary — are
//! proved in [`laws`].

pub mod de;
pub mod error;
pub mod laws;
pub mod ser;
pub mod size;
pub mod wire;

pub use de::deserialize;
pub use de::Deserializer;
pub use error::Error;
pub use ser::serialize;
pub use ser::Serializer;
pub use size::check_shape;
pub use size::max_size;
pub use size::SerializedSize;
pub use wire::Shape;
pub use wire::Value;
pub use wire::ValueList;
