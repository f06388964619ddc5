use vstd::prelude::*;
use core::marker::PhantomData;
use crate::error::{ReadResult, WriteResult};
use crate::endian::{ByteOrder, Endian};
use crate::reader::ByteReader;
use crate::codec::{
    Canonical, Codec, FromBytes, Model, ReadOutcome, ToBytes, WriteOutcome, eof, push_bytes,
};
use crate::ints::{
    be_read_i16, be_read_i32, be_read_i64, be_read_u16, be_read_u32, be_read_u64, be_write_i16,
    be_write_i32, be_write_i64, be_write_u16, be_write_u32, be_write_u64, le_read_i16,
    le_read_i32, le_read_i64, le_read_u16, le_read_u32, le_read_u64, le_write_i16, le_write_i32,
    le_write_i64, le_write_u16, le_write_u32, le_write_u64, lemma_i16_cast, lemma_i32_cast,
    lemma_i64_cast, lemma_i8_cast, lemma_u16_bytes, lemma_u32_bytes, lemma_u64_bytes, u16_bytes,
    u16_value, u32_bytes, u32_value, u64_bytes, u64_value,
};

verus! {

// ---------------------------------------------------------------- u8 and i8

impl Model for u8 {
    type Spec = u8;

    open spec fn model(&self) -> u8 {
        *self
    }
}

/// One byte.
impl<E: ByteOrder, L> FromBytes<E, L> for u8 {
    open spec fn spec_from_bytes(s: Seq<u8>) -> ReadOutcome<u8> {
        if s.len() < 1 {
            Err((eof(), s))
        } else {
            Ok((s[0], s.skip(1)))
        }
    }

    proof fn lemma_read_extends(s: Seq<u8>, t: Seq<u8>) {
        if s.len() >= 1 {
            assert((s + t).take(1) =~= s.take(1));
            assert((s + t).skip(1) =~= s.skip(1) + t);
        }
    }

    fn from_bytes(input: &mut ByteReader) -> (r: ReadResult<u8>) {
        match input.take(1) {
            Ok(b) => Ok(b[0]),
            Err(e) => Err(e),
        }
    }
}

impl<E: ByteOrder, L> ToBytes<E, L> for u8 {
    open spec fn spec_to_bytes(m: u8) -> WriteOutcome {
        Ok(seq![m])
    }

    fn to_bytes(&self, output: &mut Vec<u8>) -> (r: WriteResult) {
        let ghost before = output@;
        output.push(*self);
        assert(output@ =~= before + seq![*self]);
        Ok(())
    }
}

impl<E: ByteOrder, L> Codec<E, L> for u8 {
    proof fn lemma_write_read(m: u8, rest: Seq<u8>) {
        assert((seq![m] + rest).skip(1) =~= rest);
    }
}

impl<E: ByteOrder, L> Canonical<E, L> for u8 {
    proof fn lemma_read_write(s: Seq<u8>) {
        if s.len() >= 1 {
            assert(s =~= seq![s[0]] + s.skip(1));
        }
    }
}

impl Model for i8 {
    type Spec = i8;

    open spec fn model(&self) -> i8 {
        *self
    }
}

/// One byte, as two's complement.
impl<E: ByteOrder, L> FromBytes<E, L> for i8 {
    open spec fn spec_from_bytes(s: Seq<u8>) -> ReadOutcome<i8> {
        if s.len() < 1 {
            Err((eof(), s))
        } else {
            Ok((s[0] as i8, s.skip(1)))
        }
    }

    proof fn lemma_read_extends(s: Seq<u8>, t: Seq<u8>) {
        if s.len() >= 1 {
            assert((s + t).take(1) =~= s.take(1));
            assert((s + t).skip(1) =~= s.skip(1) + t);
        }
    }

    fn from_bytes(input: &mut ByteReader) -> (r: ReadResult<i8>) {
        match input.take(1) {
            Ok(b) => Ok(b[0] as i8),
            Err(e) => Err(e),
        }
    }
}

impl<E: ByteOrder, L> ToBytes<E, L> for i8 {
    open spec fn spec_to_bytes(m: i8) -> WriteOutcome {
        Ok(seq![m as u8])
    }

    fn to_bytes(&self, output: &mut Vec<u8>) -> (r: WriteResult) {
        let ghost before = output@;
        output.push(*self as u8);
        assert(output@ =~= before + seq![*self as u8]);
        Ok(())
    }
}

impl<E: ByteOrder, L> Codec<E, L> for i8 {
    proof fn lemma_write_read(m: i8, rest: Seq<u8>) {
        lemma_i8_cast(m, 0);
        assert((seq![m as u8] + rest).skip(1) =~= rest);
    }
}

impl<E: ByteOrder, L> Canonical<E, L> for i8 {
    proof fn lemma_read_write(s: Seq<u8>) {
        if s.len() >= 1 {
            lemma_i8_cast(0, s[0]);
            assert(s =~= seq![s[0]] + s.skip(1));
        }
    }
}

// ---------------------------------------------------------------- u16 and i16

impl Model for u16 {
    type Spec = u16;

    open spec fn model(&self) -> u16 {
        *self
    }
}

/// 2 bytes in the byte order `E`.
impl<E: ByteOrder, L> FromBytes<E, L> for u16 {
    open spec fn spec_from_bytes(s: Seq<u8>) -> ReadOutcome<u16> {
        if s.len() < 2 {
            Err((eof(), s))
        } else {
            Ok((u16_value(E::spec_endian(), s.take(2)), s.skip(2)))
        }
    }

    proof fn lemma_read_extends(s: Seq<u8>, t: Seq<u8>) {
        if s.len() >= 2 {
            assert((s + t).take(2) =~= s.take(2));
            assert((s + t).skip(2) =~= s.skip(2) + t);
        }
    }

    fn from_bytes(input: &mut ByteReader) -> (r: ReadResult<u16>) {
        let b = match input.take(2) {
            Ok(b) => b,
            Err(e) => return Err(e),
        };
        match E::endian() {
            Endian::Big => Ok(be_read_u16(b.as_slice())),
            Endian::Little => Ok(le_read_u16(b.as_slice())),
        }
    }
}

impl<E: ByteOrder, L> ToBytes<E, L> for u16 {
    open spec fn spec_to_bytes(m: u16) -> WriteOutcome {
        Ok(u16_bytes(E::spec_endian(), m))
    }

    fn to_bytes(&self, output: &mut Vec<u8>) -> (r: WriteResult) {
        let b = match E::endian() {
            Endian::Big => be_write_u16(*self),
            Endian::Little => le_write_u16(*self),
        };
        push_bytes(output, &b);
        Ok(())
    }
}

impl<E: ByteOrder, L> Codec<E, L> for u16 {
    proof fn lemma_write_read(m: u16, rest: Seq<u8>) {
        lemma_u16_bytes(E::spec_endian());
        let b = u16_bytes(E::spec_endian(), m);
        assert((b + rest).take(2) =~= b);
        assert((b + rest).skip(2) =~= rest);
    }
}

impl<E: ByteOrder, L> Canonical<E, L> for u16 {
    proof fn lemma_read_write(s: Seq<u8>) {
        lemma_u16_bytes(E::spec_endian());
        if s.len() >= 2 {
            assert(s.take(2).len() == 2);
            assert(s =~= s.take(2) + s.skip(2));
        }
    }
}

impl Model for i16 {
    type Spec = i16;

    open spec fn model(&self) -> i16 {
        *self
    }
}

/// 2 bytes in the byte order `E`, as two's complement.
impl<E: ByteOrder, L> FromBytes<E, L> for i16 {
    open spec fn spec_from_bytes(s: Seq<u8>) -> ReadOutcome<i16> {
        if s.len() < 2 {
            Err((eof(), s))
        } else {
            Ok((u16_value(E::spec_endian(), s.take(2)) as i16, s.skip(2)))
        }
    }

    proof fn lemma_read_extends(s: Seq<u8>, t: Seq<u8>) {
        if s.len() >= 2 {
            assert((s + t).take(2) =~= s.take(2));
            assert((s + t).skip(2) =~= s.skip(2) + t);
        }
    }

    fn from_bytes(input: &mut ByteReader) -> (r: ReadResult<i16>) {
        let b = match input.take(2) {
            Ok(b) => b,
            Err(e) => return Err(e),
        };
        match E::endian() {
            Endian::Big => Ok(be_read_i16(b.as_slice())),
            Endian::Little => Ok(le_read_i16(b.as_slice())),
        }
    }
}

impl<E: ByteOrder, L> ToBytes<E, L> for i16 {
    open spec fn spec_to_bytes(m: i16) -> WriteOutcome {
        Ok(u16_bytes(E::spec_endian(), m as u16))
    }

    fn to_bytes(&self, output: &mut Vec<u8>) -> (r: WriteResult) {
        let b = match E::endian() {
            Endian::Big => be_write_i16(*self),
            Endian::Little => le_write_i16(*self),
        };
        push_bytes(output, &b);
        Ok(())
    }
}

impl<E: ByteOrder, L> Codec<E, L> for i16 {
    proof fn lemma_write_read(m: i16, rest: Seq<u8>) {
        lemma_u16_bytes(E::spec_endian());
        lemma_i16_cast(m, 0);
        let b = u16_bytes(E::spec_endian(), m as u16);
        assert((b + rest).take(2) =~= b);
        assert((b + rest).skip(2) =~= rest);
    }
}

impl<E: ByteOrder, L> Canonical<E, L> for i16 {
    proof fn lemma_read_write(s: Seq<u8>) {
        lemma_u16_bytes(E::spec_endian());
        if s.len() >= 2 {
            assert(s.take(2).len() == 2);
            lemma_i16_cast(0, u16_value(E::spec_endian(), s.take(2)));
            assert(s =~= s.take(2) + s.skip(2));
        }
    }
}

// ---------------------------------------------------------------- u32 and i32

impl Model for u32 {
    type Spec = u32;

    open spec fn model(&self) -> u32 {
        *self
    }
}

/// 4 bytes in the byte order `E`.
impl<E: ByteOrder, L> FromBytes<E, L> for u32 {
    open spec fn spec_from_bytes(s: Seq<u8>) -> ReadOutcome<u32> {
        if s.len() < 4 {
            Err((eof(), s))
        } else {
            Ok((u32_value(E::spec_endian(), s.take(4)), s.skip(4)))
        }
    }

    proof fn lemma_read_extends(s: Seq<u8>, t: Seq<u8>) {
        if s.len() >= 4 {
            assert((s + t).take(4) =~= s.take(4));
            assert((s + t).skip(4) =~= s.skip(4) + t);
        }
    }

    fn from_bytes(input: &mut ByteReader) -> (r: ReadResult<u32>) {
        let b = match input.take(4) {
            Ok(b) => b,
            Err(e) => return Err(e),
        };
        match E::endian() {
            Endian::Big => Ok(be_read_u32(b.as_slice())),
            Endian::Little => Ok(le_read_u32(b.as_slice())),
        }
    }
}

impl<E: ByteOrder, L> ToBytes<E, L> for u32 {
    open spec fn spec_to_bytes(m: u32) -> WriteOutcome {
        Ok(u32_bytes(E::spec_endian(), m))
    }

    fn to_bytes(&self, output: &mut Vec<u8>) -> (r: WriteResult) {
        let b = match E::endian() {
            Endian::Big => be_write_u32(*self),
            Endian::Little => le_write_u32(*self),
        };
        push_bytes(output, &b);
        Ok(())
    }
}

impl<E: ByteOrder, L> Codec<E, L> for u32 {
    proof fn lemma_write_read(m: u32, rest: Seq<u8>) {
        lemma_u32_bytes(E::spec_endian());
        let b = u32_bytes(E::spec_endian(), m);
        assert((b + rest).take(4) =~= b);
        assert((b + rest).skip(4) =~= rest);
    }
}

impl<E: ByteOrder, L> Canonical<E, L> for u32 {
    proof fn lemma_read_write(s: Seq<u8>) {
        lemma_u32_bytes(E::spec_endian());
        if s.len() >= 4 {
            assert(s.take(4).len() == 4);
            assert(s =~= s.take(4) + s.skip(4));
        }
    }
}

impl Model for i32 {
    type Spec = i32;

    open spec fn model(&self) -> i32 {
        *self
    }
}

/// 4 bytes in the byte order `E`, as two's complement.
impl<E: ByteOrder, L> FromBytes<E, L> for i32 {
    open spec fn spec_from_bytes(s: Seq<u8>) -> ReadOutcome<i32> {
        if s.len() < 4 {
            Err((eof(), s))
        } else {
            Ok((u32_value(E::spec_endian(), s.take(4)) as i32, s.skip(4)))
        }
    }

    proof fn lemma_read_extends(s: Seq<u8>, t: Seq<u8>) {
        if s.len() >= 4 {
            assert((s + t).take(4) =~= s.take(4));
            assert((s + t).skip(4) =~= s.skip(4) + t);
        }
    }

    fn from_bytes(input: &mut ByteReader) -> (r: ReadResult<i32>) {
        let b = match input.take(4) {
            Ok(b) => b,
            Err(e) => return Err(e),
        };
        match E::endian() {
            Endian::Big => Ok(be_read_i32(b.as_slice())),
            Endian::Little => Ok(le_read_i32(b.as_slice())),
        }
    }
}

impl<E: ByteOrder, L> ToBytes<E, L> for i32 {
    open spec fn spec_to_bytes(m: i32) -> WriteOutcome {
        Ok(u32_bytes(E::spec_endian(), m as u32))
    }

    fn to_bytes(&self, output: &mut Vec<u8>) -> (r: WriteResult) {
        let b = match E::endian() {
            Endian::Big => be_write_i32(*self),
            Endian::Little => le_write_i32(*self),
        };
        push_bytes(output, &b);
        Ok(())
    }
}

impl<E: ByteOrder, L> Codec<E, L> for i32 {
    proof fn lemma_write_read(m: i32, rest: Seq<u8>) {
        lemma_u32_bytes(E::spec_endian());
        lemma_i32_cast(m, 0);
        let b = u32_bytes(E::spec_endian(), m as u32);
        assert((b + rest).take(4) =~= b);
        assert((b + rest).skip(4) =~= rest);
    }
}

impl<E: ByteOrder, L> Canonical<E, L> for i32 {
    proof fn lemma_read_write(s: Seq<u8>) {
        lemma_u32_bytes(E::spec_endian());
        if s.len() >= 4 {
            assert(s.take(4).len() == 4);
            lemma_i32_cast(0, u32_value(E::spec_endian(), s.take(4)));
            assert(s =~= s.take(4) + s.skip(4));
        }
    }
}

// ---------------------------------------------------------------- u64 and i64

impl Model for u64 {
    type Spec = u64;

    open spec fn model(&self) -> u64 {
        *self
    }
}

/// 8 bytes in the byte order `E`.
impl<E: ByteOrder, L> FromBytes<E, L> for u64 {
    open spec fn spec_from_bytes(s: Seq<u8>) -> ReadOutcome<u64> {
        if s.len() < 8 {
            Err((eof(), s))
        } else {
            Ok((u64_value(E::spec_endian(), s.take(8)), s.skip(8)))
        }
    }

    proof fn lemma_read_extends(s: Seq<u8>, t: Seq<u8>) {
        if s.len() >= 8 {
            assert((s + t).take(8) =~= s.take(8));
            assert((s + t).skip(8) =~= s.skip(8) + t);
        }
    }

    fn from_bytes(input: &mut ByteReader) -> (r: ReadResult<u64>) {
        let b = match input.take(8) {
            Ok(b) => b,
            Err(e) => return Err(e),
        };
        match E::endian() {
            Endian::Big => Ok(be_read_u64(b.as_slice())),
            Endian::Little => Ok(le_read_u64(b.as_slice())),
        }
    }
}

impl<E: ByteOrder, L> ToBytes<E, L> for u64 {
    open spec fn spec_to_bytes(m: u64) -> WriteOutcome {
        Ok(u64_bytes(E::spec_endian(), m))
    }

    fn to_bytes(&self, output: &mut Vec<u8>) -> (r: WriteResult) {
        let b = match E::endian() {
            Endian::Big => be_write_u64(*self),
            Endian::Little => le_write_u64(*self),
        };
        push_bytes(output, &b);
        Ok(())
    }
}

impl<E: ByteOrder, L> Codec<E, L> for u64 {
    proof fn lemma_write_read(m: u64, rest: Seq<u8>) {
        lemma_u64_bytes(E::spec_endian());
        let b = u64_bytes(E::spec_endian(), m);
        assert((b + rest).take(8) =~= b);
        assert((b + rest).skip(8) =~= rest);
    }
}

impl<E: ByteOrder, L> Canonical<E, L> for u64 {
    proof fn lemma_read_write(s: Seq<u8>) {
        lemma_u64_bytes(E::spec_endian());
        if s.len() >= 8 {
            assert(s.take(8).len() == 8);
            assert(s =~= s.take(8) + s.skip(8));
        }
    }
}

impl Model for i64 {
    type Spec = i64;

    open spec fn model(&self) -> i64 {
        *self
    }
}

/// 8 bytes in the byte order `E`, as two's complement.
impl<E: ByteOrder, L> FromBytes<E, L> for i64 {
    open spec fn spec_from_bytes(s: Seq<u8>) -> ReadOutcome<i64> {
        if s.len() < 8 {
            Err((eof(), s))
        } else {
            Ok((u64_value(E::spec_endian(), s.take(8)) as i64, s.skip(8)))
        }
    }

    proof fn lemma_read_extends(s: Seq<u8>, t: Seq<u8>) {
        if s.len() >= 8 {
            assert((s + t).take(8) =~= s.take(8));
            assert((s + t).skip(8) =~= s.skip(8) + t);
        }
    }

    fn from_bytes(input: &mut ByteReader) -> (r: ReadResult<i64>) {
        let b = match input.take(8) {
            Ok(b) => b,
            Err(e) => return Err(e),
        };
        match E::endian() {
            Endian::Big => Ok(be_read_i64(b.as_slice())),
            Endian::Little => Ok(le_read_i64(b.as_slice())),
        }
    }
}

impl<E: ByteOrder, L> ToBytes<E, L> for i64 {
    open spec fn spec_to_bytes(m: i64) -> WriteOutcome {
        Ok(u64_bytes(E::spec_endian(), m as u64))
    }

    fn to_bytes(&self, output: &mut Vec<u8>) -> (r: WriteResult) {
        let b = match E::endian() {
            Endian::Big => be_write_i64(*self),
            Endian::Little => le_write_i64(*self),
        };
        push_bytes(output, &b);
        Ok(())
    }
}

impl<E: ByteOrder, L> Codec<E, L> for i64 {
    proof fn lemma_write_read(m: i64, rest: Seq<u8>) {
        lemma_u64_bytes(E::spec_endian());
        lemma_i64_cast(m, 0);
        let b = u64_bytes(E::spec_endian(), m as u64);
        assert((b + rest).take(8) =~= b);
        assert((b + rest).skip(8) =~= rest);
    }
}

impl<E: ByteOrder, L> Canonical<E, L> for i64 {
    proof fn lemma_read_write(s: Seq<u8>) {
        lemma_u64_bytes(E::spec_endian());
        if s.len() >= 8 {
            assert(s.take(8).len() == 8);
            lemma_i64_cast(0, u64_value(E::spec_endian(), s.take(8)));
            assert(s =~= s.take(8) + s.skip(8));
        }
    }
}

// ---------------------------------------------------------------- bool

impl Model for bool {
    type Spec = bool;

    open spec fn model(&self) -> bool {
        *self
    }
}

/// One byte: zero is `false`, anything else is `true`.
impl<E: ByteOrder, L> FromBytes<E, L> for bool {
    open spec fn spec_from_bytes(s: Seq<u8>) -> ReadOutcome<bool> {
        if s.len() < 1 {
            Err((eof(), s))
        } else {
            Ok((s[0] != 0, s.skip(1)))
        }
    }

    proof fn lemma_read_extends(s: Seq<u8>, t: Seq<u8>) {
        if s.len() >= 1 {
            assert((s + t).take(1) =~= s.take(1));
            assert((s + t).skip(1) =~= s.skip(1) + t);
        }
    }

    fn from_bytes(input: &mut ByteReader) -> (r: ReadResult<bool>) {
        match input.take(1) {
            Ok(b) => Ok(b[0] != 0),
            Err(e) => Err(e),
        }
    }
}

/// One byte: 1 for `true`, 0 for `false`.
impl<E: ByteOrder, L> ToBytes<E, L> for bool {
    open spec fn spec_to_bytes(m: bool) -> WriteOutcome {
        Ok(seq![if m { 1u8 } else { 0u8 }])
    }

    fn to_bytes(&self, output: &mut Vec<u8>) -> (r: WriteResult) {
        let byte: u8 = if *self { 1 } else { 0 };
        let ghost before = output@;
        output.push(byte);
        assert(output@ =~= before + seq![byte]);
        Ok(())
    }
}

impl<E: ByteOrder, L> Codec<E, L> for bool {
    proof fn lemma_write_read(m: bool, rest: Seq<u8>) {
        let b: u8 = if m { 1u8 } else { 0u8 };
        assert((seq![b] + rest)[0] == b);
        assert((seq![b] + rest).skip(1) =~= rest);
    }
}

// ---------------------------------------------------------------- PhantomData

impl<T> Model for PhantomData<T> {
    type Spec = ();

    open spec fn model(&self) -> () {
        ()
    }
}

/// No bytes at all.
impl<E: ByteOrder, L, T> FromBytes<E, L> for PhantomData<T> {
    open spec fn spec_from_bytes(s: Seq<u8>) -> ReadOutcome<()> {
        Ok(((), s))
    }

    proof fn lemma_read_extends(s: Seq<u8>, t: Seq<u8>) {
    }

    fn from_bytes(input: &mut ByteReader) -> (r: ReadResult<PhantomData<T>>) {
        Ok(PhantomData)
    }
}

impl<E: ByteOrder, L, T> ToBytes<E, L> for PhantomData<T> {
    open spec fn spec_to_bytes(m: ()) -> WriteOutcome {
        Ok(Seq::empty())
    }

    fn to_bytes(&self, output: &mut Vec<u8>) -> (r: WriteResult) {
        assert(output@ =~= output@ + Seq::<u8>::empty());
        Ok(())
    }
}

impl<E: ByteOrder, L, T> Codec<E, L> for PhantomData<T> {
    proof fn lemma_write_read(m: (), rest: Seq<u8>) {
        assert(Seq::<u8>::empty() + rest =~= rest);
    }
}

impl<E: ByteOrder, L, T> Canonical<E, L> for PhantomData<T> {
    proof fn lemma_read_write(s: Seq<u8>) {
        assert(Seq::<u8>::empty() + s =~= s);
    }
}

} // verus!
