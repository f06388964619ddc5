//! Reading and writing plain values as bytes, in a byte order and with
//! length prefixes chosen at the type level.
//!
//! A value is read from a `ByteReader` with `FromBytes::from_bytes` and
//! appended to a `Vec<u8>` with `ToBytes::to_bytes`. Each format is stated
//! over a model of the value (`Model`), and `Codec` and `Canonical` state
//! that reading gives back what writing wrote, and writing gives back what
//! reading read.

pub mod error;
pub mod endian;
pub mod reader;
pub mod ints;
pub mod codec;
pub mod primitives;
pub mod sequence;
pub mod classfile;
pub mod laws;
pub mod derive_plan;

pub use error::{IoError, ReadError, ReadResult, WriteError, WriteResult};
pub use endian::{BigEndian, ByteOrder, Endian, LittleEndian, endian_of_native_reading};
pub use reader::ByteReader;
pub use codec::{Canonical, Codec, FromBytes, Model, ToBytes};
pub use sequence::{LengthCount, LengthPrefix};
pub use derive_plan::{
    Arm, Behaviour, Binding, DeriveError, Direction, FieldDecl, Plan, PlanBody, Shape, Step,
    TypeBody, TypeDecl, VariantDecl, field_steps, read_plan, write_plan,
};
pub use classfile::{
    AttributeInfo, CLASS_MAGIC, CONSTANT_CLASS_TAG, CONSTANT_OTHER_TAG, CONSTANT_UTF8_TAG,
    CONSTANT_VALUE_TAG, CPEntry, CPIndex, CPType, ClassFile, ClassInfo, ConstantPool, Container,
    FieldInfo, MethodInfo, UTF8Info,
};
