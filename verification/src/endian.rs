use vstd::prelude::*;
use crate::ints::u16_value;

verus! {

/// The order in which the bytes of a multi-byte integer are laid out.
#[derive(Debug, Clone, Copy, PartialEq, Eq, Structural)]
pub enum Endian {
    /// Most significant byte first.
    Big,
    /// Least significant byte first.
    Little,
}

impl Endian {
    /// The name of the marker type that stands for this byte order, which
    /// derived impls put as the byte-order parameter of `FromBytes` and
    /// `ToBytes`.
    pub fn as_ident(&self) -> (name: &'static str)
        ensures
            *self == Endian::Big ==> name@ == "BigEndian"@,
            *self == Endian::Little ==> name@ == "LittleEndian"@,
    {
        match self {
            Endian::Big => "BigEndian",
            Endian::Little => "LittleEndian",
        }
    }
}

/// A byte order chosen at the type level, as the first parameter of
/// `FromBytes` and `ToBytes`.
pub trait ByteOrder {
    /// The byte order that this type stands for.
    spec fn spec_endian() -> Endian;

    fn endian() -> (e: Endian)
        ensures
            e == Self::spec_endian(),
    ;
}

/// Big-endian byte order (network order).
#[derive(Debug, Clone, Copy)]
pub struct BigEndian;

/// Little-endian byte order.
#[derive(Debug, Clone, Copy)]
pub struct LittleEndian;

impl ByteOrder for BigEndian {
    open spec fn spec_endian() -> Endian {
        Endian::Big
    }

    fn endian() -> (e: Endian) {
        Endian::Big
    }
}

impl ByteOrder for LittleEndian {
    open spec fn spec_endian() -> Endian {
        Endian::Little
    }

    fn endian() -> (e: Endian) {
        Endian::Little
    }
}

/// Calls `byteorder::NativeEndian::read_u16`, which reads the first two bytes
/// of `buf` in the byte order of the machine: `NativeEndian` is
/// `LittleEndian` on a little-endian machine and `BigEndian` on a big-endian
/// one. The contract says that the result is one of the two readings, not
/// which, since that depends on the machine.
#[verifier::external_body]
fn native_read_u16(buf: &[u8]) -> (r: u16)
    requires
        buf@.len() == 2,
    ensures
        r == u16_value(Endian::Little, buf@) || r == u16_value(Endian::Big, buf@),
{
    <byteorder::NativeEndian as byteorder::ByteOrder>::read_u16(buf)
}

/// The byte order in which the bytes `[1, 0]` read as `r`: little-endian
/// when `r` is 1 (the least significant byte came first), big-endian
/// otherwise.
pub fn endian_of_native_reading(r: u16) -> (e: Endian)
    ensures
        (e == Endian::Little) == (r == 1),
        (e == Endian::Big) == (r != 1),
{
    if r == 1 {
        Endian::Little
    } else {
        Endian::Big
    }
}

impl Default for Endian {
    /// The byte order of the machine that runs the code: the order in which
    /// `byteorder::NativeEndian` reads the bytes `[1, 0]`.
    fn default() -> (e: Self) {
        let probe: [u8; 2] = [1, 0];
        endian_of_native_reading(native_read_u16(&probe))
    }
}

} // verus!
