use vstd::prelude::*;
use core::marker::PhantomData;
use crate::error::{ReadError, ReadResult, WriteError, WriteResult};
use crate::endian::{BigEndian, ByteOrder};
use crate::reader::ByteReader;
use crate::codec::{
    Canonical, Codec, FromBytes, Model, ReadOutcome, ToBytes, WriteOutcome, expect,
    lemma_prepend_nothing, lemma_write_last, lemma_write_step, lemma_write_then, read_then,
    then_write,
};

verus! {

/// The tag of a constant-pool entry that names a class.
pub const CONSTANT_CLASS_TAG: u8 = 7;

/// The tag of a constant-pool entry that holds UTF-8 bytes.
pub const CONSTANT_UTF8_TAG: u8 = 1;

/// The tag of the entry without contents.
pub const CONSTANT_VALUE_TAG: u8 = 2;

/// The tag of the entry with two 16-bit numbers.
pub const CONSTANT_OTHER_TAG: u8 = 3;

/// The number that a class file and its constant pool begin with.
pub const CLASS_MAGIC: u32 = 0xCAFE_BABE;

// ---------------------------------------------------------------- CPEntry

/// An entry of the constant pool, after a one-byte tag.
#[derive(Debug)]
pub enum CPEntry<'a> {
    /// Tag 2, no contents.
    Value,
    /// Tag 1.
    UTF8(UTF8Info<'a>),
    /// Tag 7.
    Class(ClassInfo<'a>),
    /// Tag 3, two big-endian `u16`.
    Other { value: u16, extra: u16 },
}

// ---------------------------------------------------------------- CPType

/// A kind of constant-pool entry that an index can point at.
pub trait CPType<'a> {
    type Output;

    /// The entry's contents, if the entry is of this kind.
    fn fetch(entry: &'a CPEntry<'a>) -> Option<Self::Output>;
}

// ---------------------------------------------------------------- CPIndex

/// An index into the constant pool, at an entry of kind `T`.
#[derive(Debug)]
pub struct CPIndex<'a, T: 'a + CPType<'a>> {
    index: u16,
    _marker: PhantomData<&'a T>,
}

impl<'a, T: 'a + CPType<'a>> CPIndex<'a, T> {
    pub fn new(index: u16) -> (r: Self)
        ensures
            r.model() == index,
    {
        CPIndex { index, _marker: PhantomData }
    }

    pub fn index(&self) -> (r: u16)
        ensures
            r == self.model(),
    {
        self.index
    }
}

impl<'a, T: 'a + CPType<'a>> Clone for CPIndex<'a, T> {
    fn clone(&self) -> (r: Self)
        ensures
            r == *self,
    {
        *self
    }
}

impl<'a, T: 'a + CPType<'a>> Copy for CPIndex<'a, T> {

}

impl<'a, T: 'a + CPType<'a>> Model for CPIndex<'a, T> {
    type Spec = u16;

    closed spec fn model(&self) -> u16 {
        self.index
    }
}

/// The index as a big-endian `u16`.
impl<'a, T: 'a + CPType<'a>> FromBytes<BigEndian, ()> for CPIndex<'a, T> {
    open spec fn spec_from_bytes(s: Seq<u8>) -> ReadOutcome<u16> {
        <u16 as FromBytes<BigEndian, ()>>::spec_from_bytes(s)
    }

    proof fn lemma_read_extends(s: Seq<u8>, t: Seq<u8>) {
        <u16 as FromBytes<BigEndian, ()>>::lemma_read_extends(s, t);
    }

    fn from_bytes(input: &mut ByteReader) -> (r: ReadResult<Self>) {
        let index = match <u16 as FromBytes<BigEndian, ()>>::from_bytes(input) {
            Ok(v) => v,
            Err(e) => return Err(e),
        };
        Ok(CPIndex { index, _marker: PhantomData })
    }
}

impl<'a, T: 'a + CPType<'a>> ToBytes<BigEndian, ()> for CPIndex<'a, T> {
    open spec fn spec_to_bytes(m: u16) -> WriteOutcome {
        <u16 as ToBytes<BigEndian, ()>>::spec_to_bytes(m)
    }

    fn to_bytes(&self, output: &mut Vec<u8>) -> (r: WriteResult) {
        <u16 as ToBytes<BigEndian, ()>>::to_bytes(&self.index, output)
    }
}

impl<'a, T: 'a + CPType<'a>> Codec<BigEndian, ()> for CPIndex<'a, T> {
    proof fn lemma_write_read(m: u16, rest: Seq<u8>) {
        <u16 as Codec<BigEndian, ()>>::lemma_write_read(m, rest);
    }
}

impl<'a, T: 'a + CPType<'a>> Canonical<BigEndian, ()> for CPIndex<'a, T> {
    proof fn lemma_read_write(s: Seq<u8>) {
        <u16 as Canonical<BigEndian, ()>>::lemma_read_write(s);
    }
}

// ---------------------------------------------------------------- UTF8Info

/// The bytes of a UTF-8 constant, after a big-endian `u16` length.
#[derive(Debug)]
pub struct UTF8Info<'a> {
    data: Vec<u8>,
    _marker: PhantomData<&'a ()>,
}

impl<'a> UTF8Info<'a> {
    pub fn new(data: Vec<u8>) -> (r: Self)
        ensures
            r.model() == data@,
    {
        let r = UTF8Info { data, _marker: PhantomData };
        assert(r.model() =~= data@);
        r
    }

    pub fn data(&self) -> (r: &Vec<u8>)
        ensures
            r@ == self.model(),
    {
        assert(self.model() =~= self.data@);
        &self.data
    }
}

impl<'a> Model for UTF8Info<'a> {
    type Spec = Seq<u8>;

    closed spec fn model(&self) -> Seq<u8> {
        self.data.model()
    }
}

impl<'a> FromBytes<BigEndian, ()> for UTF8Info<'a> {
    open spec fn spec_from_bytes(s: Seq<u8>) -> ReadOutcome<Seq<u8>> {
        <Vec<u8> as FromBytes<BigEndian, u16>>::spec_from_bytes(s)
    }

    proof fn lemma_read_extends(s: Seq<u8>, t: Seq<u8>) {
        <Vec<u8> as FromBytes<BigEndian, u16>>::lemma_read_extends(s, t);
    }

    fn from_bytes(input: &mut ByteReader) -> (r: ReadResult<Self>) {
        let data = match <Vec<u8> as FromBytes<BigEndian, u16>>::from_bytes(input) {
            Ok(v) => v,
            Err(e) => return Err(e),
        };
        Ok(UTF8Info { data, _marker: PhantomData })
    }
}

impl<'a> ToBytes<BigEndian, ()> for UTF8Info<'a> {
    open spec fn spec_to_bytes(m: Seq<u8>) -> WriteOutcome {
        <Vec<u8> as ToBytes<BigEndian, u16>>::spec_to_bytes(m)
    }

    fn to_bytes(&self, output: &mut Vec<u8>) -> (r: WriteResult) {
        <Vec<u8> as ToBytes<BigEndian, u16>>::to_bytes(&self.data, output)
    }
}

impl<'a> Codec<BigEndian, ()> for UTF8Info<'a> {
    proof fn lemma_write_read(m: Seq<u8>, rest: Seq<u8>) {
        <Vec<u8> as Codec<BigEndian, u16>>::lemma_write_read(m, rest);
    }
}

impl<'a> Canonical<BigEndian, ()> for UTF8Info<'a> {
    proof fn lemma_read_write(s: Seq<u8>) {
        <Vec<u8> as Canonical<BigEndian, u16>>::lemma_read_write(s);
    }
}

impl<'a> CPType<'a> for UTF8Info<'a> {
    type Output = &'a UTF8Info<'a>;

    fn fetch(entry: &'a CPEntry<'a>) -> (r: Option<&'a UTF8Info<'a>>)
        ensures
            entry matches CPEntry::UTF8(info) ==> r == Some(info),
            !(entry is UTF8) ==> r is None,
    {
        if let CPEntry::UTF8(info) = entry {
            Some(info)
        } else {
            None
        }
    }
}

// ---------------------------------------------------------------- ClassInfo

/// A class constant: the index of the UTF-8 constant with its name.
#[derive(Debug)]
pub struct ClassInfo<'a> {
    name_index: CPIndex<'a, UTF8Info<'a>>,
}

impl<'a> ClassInfo<'a> {
    pub fn new(name_index: CPIndex<'a, UTF8Info<'a>>) -> (r: Self)
        ensures
            r.model() == name_index.model(),
    {
        ClassInfo { name_index }
    }

    pub fn name_index(&self) -> (r: CPIndex<'a, UTF8Info<'a>>)
        ensures
            r.model() == self.model(),
    {
        self.name_index
    }
}

impl<'a> Model for ClassInfo<'a> {
    type Spec = u16;

    closed spec fn model(&self) -> u16 {
        self.name_index.model()
    }
}

impl<'a> FromBytes<BigEndian, ()> for ClassInfo<'a> {
    open spec fn spec_from_bytes(s: Seq<u8>) -> ReadOutcome<u16> {
        <CPIndex<'a, UTF8Info<'a>> as FromBytes<BigEndian, ()>>::spec_from_bytes(s)
    }

    proof fn lemma_read_extends(s: Seq<u8>, t: Seq<u8>) {
        <CPIndex<'a, UTF8Info<'a>> as FromBytes<BigEndian, ()>>::lemma_read_extends(s, t);
    }

    fn from_bytes(input: &mut ByteReader) -> (r: ReadResult<Self>) {
        let name_index = match <CPIndex<'a, UTF8Info<'a>> as FromBytes<BigEndian, ()>>::from_bytes(
            input,
        ) {
            Ok(v) => v,
            Err(e) => return Err(e),
        };
        Ok(ClassInfo { name_index })
    }
}

impl<'a> ToBytes<BigEndian, ()> for ClassInfo<'a> {
    open spec fn spec_to_bytes(m: u16) -> WriteOutcome {
        <CPIndex<'a, UTF8Info<'a>> as ToBytes<BigEndian, ()>>::spec_to_bytes(m)
    }

    fn to_bytes(&self, output: &mut Vec<u8>) -> (r: WriteResult) {
        <CPIndex<'a, UTF8Info<'a>> as ToBytes<BigEndian, ()>>::to_bytes(&self.name_index, output)
    }
}

impl<'a> Codec<BigEndian, ()> for ClassInfo<'a> {
    proof fn lemma_write_read(m: u16, rest: Seq<u8>) {
        <CPIndex<'a, UTF8Info<'a>> as Codec<BigEndian, ()>>::lemma_write_read(m, rest);
    }
}

impl<'a> Canonical<BigEndian, ()> for ClassInfo<'a> {
    proof fn lemma_read_write(s: Seq<u8>) {
        <CPIndex<'a, UTF8Info<'a>> as Canonical<BigEndian, ()>>::lemma_read_write(s);
    }
}

impl<'a> CPType<'a> for ClassInfo<'a> {
    type Output = &'a ClassInfo<'a>;

    fn fetch(entry: &'a CPEntry<'a>) -> (r: Option<&'a ClassInfo<'a>>)
        ensures
            entry matches CPEntry::Class(info) ==> r == Some(info),
            !(entry is Class) ==> r is None,
    {
        if let CPEntry::Class(info) = entry {
            Some(info)
        } else {
            None
        }
    }
}

// ---------------------------------------------------------------- CPEntry formats

/// The model of a constant-pool entry.
pub enum CPEntryModel {
    Value,
    UTF8(Seq<u8>),
    Class(u16),
    Other { value: u16, extra: u16 },
}

impl<'a> Model for CPEntry<'a> {
    type Spec = CPEntryModel;

    open spec fn model(&self) -> CPEntryModel {
        match self {
            CPEntry::Value => CPEntryModel::Value,
            CPEntry::UTF8(info) => CPEntryModel::UTF8(info.model()),
            CPEntry::Class(info) => CPEntryModel::Class(info.model()),
            CPEntry::Other { value, extra } => CPEntryModel::Other { value: *value, extra: *extra },
        }
    }
}

/// A `u8` tag, then the contents of the variant with that tag; any other tag
/// is refused once read.
impl<'a> FromBytes<BigEndian, ()> for CPEntry<'a> {
    open spec fn spec_from_bytes(s: Seq<u8>) -> ReadOutcome<CPEntryModel> {
        match <u8 as FromBytes<BigEndian, ()>>::spec_from_bytes(s) {
            Err(x) => Err(x),
            Ok((tag, r)) => if tag == CONSTANT_VALUE_TAG {
                Ok((CPEntryModel::Value, r))
            } else if tag == CONSTANT_UTF8_TAG {
                match <UTF8Info<'a> as FromBytes<BigEndian, ()>>::spec_from_bytes(r) {
                    Err(x) => Err(x),
                    Ok((d, r2)) => Ok((CPEntryModel::UTF8(d), r2)),
                }
            } else if tag == CONSTANT_CLASS_TAG {
                match <ClassInfo<'a> as FromBytes<BigEndian, ()>>::spec_from_bytes(r) {
                    Err(x) => Err(x),
                    Ok((i, r2)) => Ok((CPEntryModel::Class(i), r2)),
                }
            } else if tag == CONSTANT_OTHER_TAG {
                match <u16 as FromBytes<BigEndian, ()>>::spec_from_bytes(r) {
                    Err(x) => Err(x),
                    Ok((value, r2)) => match <u16 as FromBytes<BigEndian, ()>>::spec_from_bytes(r2) {
                        Err(x) => Err(x),
                        Ok((extra, r3)) => Ok((CPEntryModel::Other { value, extra }, r3)),
                    },
                }
            } else {
                Err((ReadError::UnknownTag, r))
            },
        }
    }

    proof fn lemma_read_extends(s: Seq<u8>, t: Seq<u8>) {
        if s.len() >= 1 {
            let r = s.skip(1);
            assert((s + t).skip(1) =~= r + t);
            <UTF8Info<'a> as FromBytes<BigEndian, ()>>::lemma_read_extends(r, t);
            <ClassInfo<'a> as FromBytes<BigEndian, ()>>::lemma_read_extends(r, t);
            <u16 as FromBytes<BigEndian, ()>>::lemma_read_extends(r, t);
            if let Ok((value, r2)) = <u16 as FromBytes<BigEndian, ()>>::spec_from_bytes(r) {
                <u16 as FromBytes<BigEndian, ()>>::lemma_read_extends(r2, t);
            }
        }
    }

    fn from_bytes(input: &mut ByteReader) -> (r: ReadResult<Self>) {
        let tag = match <u8 as FromBytes<BigEndian, ()>>::from_bytes(input) {
            Ok(v) => v,
            Err(e) => return Err(e),
        };
        if tag == CONSTANT_VALUE_TAG {
            Ok(CPEntry::Value)
        } else if tag == CONSTANT_UTF8_TAG {
            match <UTF8Info<'a> as FromBytes<BigEndian, ()>>::from_bytes(input) {
                Ok(info) => Ok(CPEntry::UTF8(info)),
                Err(e) => Err(e),
            }
        } else if tag == CONSTANT_CLASS_TAG {
            match <ClassInfo<'a> as FromBytes<BigEndian, ()>>::from_bytes(input) {
                Ok(info) => Ok(CPEntry::Class(info)),
                Err(e) => Err(e),
            }
        } else if tag == CONSTANT_OTHER_TAG {
            let value = match <u16 as FromBytes<BigEndian, ()>>::from_bytes(input) {
                Ok(v) => v,
                Err(e) => return Err(e),
            };
            let extra = match <u16 as FromBytes<BigEndian, ()>>::from_bytes(input) {
                Ok(v) => v,
                Err(e) => return Err(e),
            };
            Ok(CPEntry::Other { value, extra })
        } else {
            Err(ReadError::UnknownTag)
        }
    }
}

/// The tag of the variant as a `u8`, then its contents.
impl<'a> ToBytes<BigEndian, ()> for CPEntry<'a> {
    open spec fn spec_to_bytes(m: CPEntryModel) -> WriteOutcome {
        match m {
            CPEntryModel::Value => Ok(seq![CONSTANT_VALUE_TAG]),
            CPEntryModel::UTF8(d) => then_write(
                Ok(seq![CONSTANT_UTF8_TAG]),
                <UTF8Info<'a> as ToBytes<BigEndian, ()>>::spec_to_bytes(d),
            ),
            CPEntryModel::Class(i) => then_write(
                Ok(seq![CONSTANT_CLASS_TAG]),
                <ClassInfo<'a> as ToBytes<BigEndian, ()>>::spec_to_bytes(i),
            ),
            CPEntryModel::Other { value, extra } => then_write(
                Ok(seq![CONSTANT_OTHER_TAG]),
                then_write(
                    <u16 as ToBytes<BigEndian, ()>>::spec_to_bytes(value),
                    <u16 as ToBytes<BigEndian, ()>>::spec_to_bytes(extra),
                ),
            ),
        }
    }

    fn to_bytes(&self, output: &mut Vec<u8>) -> (r: WriteResult) {
        let tag: u8 = match self {
            CPEntry::Value => CONSTANT_VALUE_TAG,
            CPEntry::UTF8(_) => CONSTANT_UTF8_TAG,
            CPEntry::Class(_) => CONSTANT_CLASS_TAG,
            CPEntry::Other { .. } => CONSTANT_OTHER_TAG,
        };
        let ghost before = output@;
        let _ = <u8 as ToBytes<BigEndian, ()>>::to_bytes(&tag, output);
        let ghost mid = output@;
        match self {
            CPEntry::Value => {
                assert(output@ =~= before + seq![tag]);
                Ok(())
            },
            CPEntry::UTF8(info) => {
                let r = <UTF8Info<'a> as ToBytes<BigEndian, ()>>::to_bytes(info, output);
                proof {
                    lemma_write_then(seq![tag], <UTF8Info<'a> as ToBytes<BigEndian, ()>>::spec_to_bytes(info.model()), r, before, mid, output@);
                }
                r
            },
            CPEntry::Class(info) => {
                let r = <ClassInfo<'a> as ToBytes<BigEndian, ()>>::to_bytes(info, output);
                proof {
                    lemma_write_then(seq![tag], <ClassInfo<'a> as ToBytes<BigEndian, ()>>::spec_to_bytes(info.model()), r, before, mid, output@);
                }
                r
            },
            CPEntry::Other { value, extra } => {
                let _ = <u16 as ToBytes<BigEndian, ()>>::to_bytes(value, output);
                let ghost mid2 = output@;
                let r = <u16 as ToBytes<BigEndian, ()>>::to_bytes(extra, output);
                proof {
                    let bv = <u16 as ToBytes<BigEndian, ()>>::spec_to_bytes(*value)->Ok_0;
                    lemma_write_then(bv, <u16 as ToBytes<BigEndian, ()>>::spec_to_bytes(*extra), r, mid, mid2, output@);
                    lemma_write_then(seq![tag], then_write(Ok(bv), <u16 as ToBytes<BigEndian, ()>>::spec_to_bytes(*extra)), r, before, mid, output@);
                }
                r
            },
        }
    }
}

impl<'a> Codec<BigEndian, ()> for CPEntry<'a> {
    proof fn lemma_write_read(m: CPEntryModel, rest: Seq<u8>) {
        match m {
            CPEntryModel::Value => {
                assert((seq![CONSTANT_VALUE_TAG] + rest)[0] == CONSTANT_VALUE_TAG);
                assert((seq![CONSTANT_VALUE_TAG] + rest).skip(1) =~= rest);
            },
            CPEntryModel::UTF8(d) => {
                if let Ok(b) = <UTF8Info<'a> as ToBytes<BigEndian, ()>>::spec_to_bytes(d) {
                    <UTF8Info<'a> as Codec<BigEndian, ()>>::lemma_write_read(d, rest);
                    let all = seq![CONSTANT_UTF8_TAG] + b + rest;
                    assert(all[0] == CONSTANT_UTF8_TAG);
                    assert(all.skip(1) =~= b + rest);
                    assert(seq![CONSTANT_UTF8_TAG] + b + rest =~= seq![CONSTANT_UTF8_TAG] + (b + rest));
                }
            },
            CPEntryModel::Class(i) => {
                if let Ok(b) = <ClassInfo<'a> as ToBytes<BigEndian, ()>>::spec_to_bytes(i) {
                    <ClassInfo<'a> as Codec<BigEndian, ()>>::lemma_write_read(i, rest);
                    let all = seq![CONSTANT_CLASS_TAG] + b + rest;
                    assert(all[0] == CONSTANT_CLASS_TAG);
                    assert(all.skip(1) =~= b + rest);
                    assert(seq![CONSTANT_CLASS_TAG] + b + rest =~= seq![CONSTANT_CLASS_TAG] + (b + rest));
                }
            },
            CPEntryModel::Other { value, extra } => {
                let bv = <u16 as ToBytes<BigEndian, ()>>::spec_to_bytes(value)->Ok_0;
                let bx = <u16 as ToBytes<BigEndian, ()>>::spec_to_bytes(extra)->Ok_0;
                <u16 as Codec<BigEndian, ()>>::lemma_write_read(value, bx + rest);
                <u16 as Codec<BigEndian, ()>>::lemma_write_read(extra, rest);
                let all = seq![CONSTANT_OTHER_TAG] + (bv + bx) + rest;
                assert(all[0] == CONSTANT_OTHER_TAG);
                assert(all.skip(1) =~= bv + (bx + rest));
            },
        }
    }
}

impl<'a> Canonical<BigEndian, ()> for CPEntry<'a> {
    proof fn lemma_read_write(s: Seq<u8>) {
        if s.len() >= 1 {
            let tag = s[0];
            let r = s.skip(1);
            assert(s =~= seq![tag] + r);
            if tag == CONSTANT_UTF8_TAG {
                <UTF8Info<'a> as Canonical<BigEndian, ()>>::lemma_read_write(r);
                if let Ok((d, r2)) = <UTF8Info<'a> as FromBytes<BigEndian, ()>>::spec_from_bytes(r) {
                    let b = <UTF8Info<'a> as ToBytes<BigEndian, ()>>::spec_to_bytes(d)->Ok_0;
                    assert(s =~= seq![tag] + b + r2);
                }
            } else if tag == CONSTANT_CLASS_TAG {
                <ClassInfo<'a> as Canonical<BigEndian, ()>>::lemma_read_write(r);
                if let Ok((i, r2)) = <ClassInfo<'a> as FromBytes<BigEndian, ()>>::spec_from_bytes(r) {
                    let b = <ClassInfo<'a> as ToBytes<BigEndian, ()>>::spec_to_bytes(i)->Ok_0;
                    assert(s =~= seq![tag] + b + r2);
                }
            } else if tag == CONSTANT_OTHER_TAG {
                <u16 as Canonical<BigEndian, ()>>::lemma_read_write(r);
                if let Ok((value, r2)) = <u16 as FromBytes<BigEndian, ()>>::spec_from_bytes(r) {
                    <u16 as Canonical<BigEndian, ()>>::lemma_read_write(r2);
                    if let Ok((extra, r3)) = <u16 as FromBytes<BigEndian, ()>>::spec_from_bytes(r2) {
                        let bv = <u16 as ToBytes<BigEndian, ()>>::spec_to_bytes(value)->Ok_0;
                        let bx = <u16 as ToBytes<BigEndian, ()>>::spec_to_bytes(extra)->Ok_0;
                        assert(s =~= seq![tag] + (bv + bx) + r3);
                    }
                }
            }
        }
    }
}

// ---------------------------------------------------------------- ConstantPool

/// The constant pool: the class-file magic number, then the entries after a
/// big-endian `u16` count.
#[derive(Debug)]
pub struct ConstantPool<'a> {
    entries: Vec<CPEntry<'a>>,
}

impl<'a> ConstantPool<'a> {
    pub fn new(entries: Vec<CPEntry<'a>>) -> (r: Self)
        ensures
            r.model() == entries.model(),
    {
        ConstantPool { entries }
    }

    pub fn entries(&self) -> (r: &Vec<CPEntry<'a>>)
        ensures
            r.model() == self.model(),
    {
        &self.entries
    }
}

impl<'a> Default for ConstantPool<'a> {
    fn default() -> (r: Self)
        ensures
            r.model() == Seq::<CPEntryModel>::empty(),
    {
        let r = ConstantPool { entries: Vec::new() };
        assert(r.model() =~= Seq::<CPEntryModel>::empty());
        r
    }
}

impl<'a> Model for ConstantPool<'a> {
    type Spec = Seq<CPEntryModel>;

    closed spec fn model(&self) -> Seq<CPEntryModel> {
        self.entries.model()
    }
}

impl<'a> FromBytes<BigEndian, ()> for ConstantPool<'a> {
    open spec fn spec_from_bytes(s: Seq<u8>) -> ReadOutcome<<Self as Model>::Spec> {
        read_then(expect(<u32 as FromBytes<BigEndian, u16>>::spec_from_bytes(s), CLASS_MAGIC), |_x: (), s: Seq<u8>|
        read_then(<Vec<CPEntry<'a>> as FromBytes<BigEndian, u16>>::spec_from_bytes(s), |entries: Seq<CPEntryModel>, s: Seq<u8>|
        Ok((entries, s))))
    }

    proof fn lemma_read_extends(s: Seq<u8>, t: Seq<u8>) {
        let s0 = s;
        <u32 as FromBytes<BigEndian, u16>>::lemma_read_extends(s0, t);
        if let Ok((v0, s1)) = <u32 as FromBytes<BigEndian, u16>>::spec_from_bytes(s0) {
            <Vec<CPEntry<'a>> as FromBytes<BigEndian, u16>>::lemma_read_extends(s1, t);
        }
    }

    fn from_bytes(input: &mut ByteReader) -> (r: ReadResult<Self>) {
        let magic = match <u32 as FromBytes<BigEndian, u16>>::from_bytes(input) {
            Ok(v) => v,
            Err(e) => return Err(e),
        };
        if magic != CLASS_MAGIC {
            return Err(ReadError::InvalidExpectation);
        }
        let entries = match <Vec<CPEntry<'a>> as FromBytes<BigEndian, u16>>::from_bytes(input) {
            Ok(v) => v,
            Err(e) => return Err(e),
        };
        Ok(ConstantPool { entries })
    }
}

impl<'a> ToBytes<BigEndian, ()> for ConstantPool<'a> {
    open spec fn spec_to_bytes(m: <Self as Model>::Spec) -> WriteOutcome {
        then_write(<u32 as ToBytes<BigEndian, u16>>::spec_to_bytes(CLASS_MAGIC),
        <Vec<CPEntry<'a>> as ToBytes<BigEndian, u16>>::spec_to_bytes(m))
    }

    fn to_bytes(&self, output: &mut Vec<u8>) -> (r: WriteResult) {
        let ghost start = output@;
        let ghost w0 = <u32 as ToBytes<BigEndian, u16>>::spec_to_bytes(CLASS_MAGIC);
        let ghost w1 = <Vec<CPEntry<'a>> as ToBytes<BigEndian, u16>>::spec_to_bytes(self.entries.model());
        let ghost rest1 = w1;
        let ghost rest0 = then_write(w0, rest1);
        let ghost mut done: Seq<u8> = Seq::empty();
        proof {
            lemma_prepend_nothing(rest0);
        }
        let ghost mid = output@;
        let magic: u32 = CLASS_MAGIC;
        let r = <u32 as ToBytes<BigEndian, u16>>::to_bytes(&magic, output);
        proof {
            lemma_write_step(rest0, done, w0, rest1, r, start, mid, output@);
        }
        if r.is_err() {
            return r;
        }
        proof {
            done = done + w0->Ok_0;
        }
        let ghost mid = output@;
        let r = <Vec<CPEntry<'a>> as ToBytes<BigEndian, u16>>::to_bytes(&self.entries, output);
        proof {
            lemma_write_last(rest0, done, w1, r, start, mid, output@);
        }
        r
    }
}

impl<'a> Codec<BigEndian, ()> for ConstantPool<'a> {
    proof fn lemma_write_read(m: <Self as Model>::Spec, rest: Seq<u8>) {
        if let Ok(b0) = <u32 as ToBytes<BigEndian, u16>>::spec_to_bytes(CLASS_MAGIC) {
            if let Ok(b1) = <Vec<CPEntry<'a>> as ToBytes<BigEndian, u16>>::spec_to_bytes(m) {
                let x1 = b1;
                let x0 = b0 + x1;
                <u32 as Codec<BigEndian, u16>>::lemma_write_read(CLASS_MAGIC, x1 + rest);
                assert(x0 + rest =~= b0 + (x1 + rest));
                <Vec<CPEntry<'a>> as Codec<BigEndian, u16>>::lemma_write_read(m, rest);
            }
        }
    }
}

impl<'a> Canonical<BigEndian, ()> for ConstantPool<'a> {
    proof fn lemma_read_write(s: Seq<u8>) {
        let s0 = s;
        <u32 as Canonical<BigEndian, u16>>::lemma_read_write(s0);
        if let Ok((v0, s1)) = <u32 as FromBytes<BigEndian, u16>>::spec_from_bytes(s0) {
            if v0 == CLASS_MAGIC {
                <Vec<CPEntry<'a>> as Canonical<BigEndian, u16>>::lemma_read_write(s1);
                if let Ok((v1, s2)) = <Vec<CPEntry<'a>> as FromBytes<BigEndian, u16>>::spec_from_bytes(s1) {
                    let b0 = <u32 as ToBytes<BigEndian, u16>>::spec_to_bytes(v0)->Ok_0;
                    let b1 = <Vec<CPEntry<'a>> as ToBytes<BigEndian, u16>>::spec_to_bytes(v1)->Ok_0;
                    let x1 = b1;
                    let x0 = b0 + x1;
                    let w1 = <Vec<CPEntry<'a>> as ToBytes<BigEndian, u16>>::spec_to_bytes(v1);
                    let w0 = then_write(<u32 as ToBytes<BigEndian, u16>>::spec_to_bytes(v0), w1);
                    assert(w1 == Ok::<Seq<u8>, (Seq<u8>, WriteError)>(x1));
                    assert(w0 == Ok::<Seq<u8>, (Seq<u8>, WriteError)>(x0));
                    assert(s0 =~= x0 + s2);
                }
            }
        }
    }
}

// ---------------------------------------------------------------- FieldInfo

/// A field of a class; it takes no bytes.
#[derive(Debug)]
pub struct FieldInfo<'a> {
    _marker: PhantomData<&'a ()>,
}

impl<'a> FieldInfo<'a> {
    pub fn new() -> (r: Self) {
        FieldInfo { _marker: PhantomData }
    }
}

impl<'a> Model for FieldInfo<'a> {
    type Spec = ();

    open spec fn model(&self) -> () {
        ()
    }
}

impl<'a> FromBytes<BigEndian, ()> for FieldInfo<'a> {
    open spec fn spec_from_bytes(s: Seq<u8>) -> ReadOutcome<()> {
        Ok(((), s))
    }

    proof fn lemma_read_extends(s: Seq<u8>, t: Seq<u8>) {
    }

    fn from_bytes(input: &mut ByteReader) -> (r: ReadResult<Self>) {
        Ok(FieldInfo { _marker: PhantomData })
    }
}

impl<'a> ToBytes<BigEndian, ()> for FieldInfo<'a> {
    open spec fn spec_to_bytes(m: ()) -> WriteOutcome {
        Ok(Seq::empty())
    }

    fn to_bytes(&self, output: &mut Vec<u8>) -> (r: WriteResult) {
        assert(output@ =~= output@ + Seq::<u8>::empty());
        Ok(())
    }
}

impl<'a> Codec<BigEndian, ()> for FieldInfo<'a> {
    proof fn lemma_write_read(m: (), rest: Seq<u8>) {
        assert(Seq::<u8>::empty() + rest =~= rest);
    }
}

impl<'a> Canonical<BigEndian, ()> for FieldInfo<'a> {
    proof fn lemma_read_write(s: Seq<u8>) {
        assert(Seq::<u8>::empty() + s =~= s);
    }
}

// ---------------------------------------------------------------- MethodInfo

/// A method of a class; it takes no bytes.
#[derive(Debug)]
pub struct MethodInfo<'a> {
    _marker: PhantomData<&'a ()>,
}

impl<'a> MethodInfo<'a> {
    pub fn new() -> (r: Self) {
        MethodInfo { _marker: PhantomData }
    }
}

impl<'a> Model for MethodInfo<'a> {
    type Spec = ();

    open spec fn model(&self) -> () {
        ()
    }
}

impl<'a> FromBytes<BigEndian, ()> for MethodInfo<'a> {
    open spec fn spec_from_bytes(s: Seq<u8>) -> ReadOutcome<()> {
        Ok(((), s))
    }

    proof fn lemma_read_extends(s: Seq<u8>, t: Seq<u8>) {
    }

    fn from_bytes(input: &mut ByteReader) -> (r: ReadResult<Self>) {
        Ok(MethodInfo { _marker: PhantomData })
    }
}

impl<'a> ToBytes<BigEndian, ()> for MethodInfo<'a> {
    open spec fn spec_to_bytes(m: ()) -> WriteOutcome {
        Ok(Seq::empty())
    }

    fn to_bytes(&self, output: &mut Vec<u8>) -> (r: WriteResult) {
        assert(output@ =~= output@ + Seq::<u8>::empty());
        Ok(())
    }
}

impl<'a> Codec<BigEndian, ()> for MethodInfo<'a> {
    proof fn lemma_write_read(m: (), rest: Seq<u8>) {
        assert(Seq::<u8>::empty() + rest =~= rest);
    }
}

impl<'a> Canonical<BigEndian, ()> for MethodInfo<'a> {
    proof fn lemma_read_write(s: Seq<u8>) {
        assert(Seq::<u8>::empty() + s =~= s);
    }
}

// ---------------------------------------------------------------- AttributeInfo

/// An attribute; it takes no bytes.
#[derive(Debug)]
pub struct AttributeInfo<'a> {
    _marker: PhantomData<&'a ()>,
}

impl<'a> AttributeInfo<'a> {
    pub fn new() -> (r: Self) {
        AttributeInfo { _marker: PhantomData }
    }
}

impl<'a> Model for AttributeInfo<'a> {
    type Spec = ();

    open spec fn model(&self) -> () {
        ()
    }
}

impl<'a> FromBytes<BigEndian, ()> for AttributeInfo<'a> {
    open spec fn spec_from_bytes(s: Seq<u8>) -> ReadOutcome<()> {
        Ok(((), s))
    }

    proof fn lemma_read_extends(s: Seq<u8>, t: Seq<u8>) {
    }

    fn from_bytes(input: &mut ByteReader) -> (r: ReadResult<Self>) {
        Ok(AttributeInfo { _marker: PhantomData })
    }
}

impl<'a> ToBytes<BigEndian, ()> for AttributeInfo<'a> {
    open spec fn spec_to_bytes(m: ()) -> WriteOutcome {
        Ok(Seq::empty())
    }

    fn to_bytes(&self, output: &mut Vec<u8>) -> (r: WriteResult) {
        assert(output@ =~= output@ + Seq::<u8>::empty());
        Ok(())
    }
}

impl<'a> Codec<BigEndian, ()> for AttributeInfo<'a> {
    proof fn lemma_write_read(m: (), rest: Seq<u8>) {
        assert(Seq::<u8>::empty() + rest =~= rest);
    }
}

impl<'a> Canonical<BigEndian, ()> for AttributeInfo<'a> {
    proof fn lemma_read_write(s: Seq<u8>) {
        assert(Seq::<u8>::empty() + s =~= s);
    }
}

// ---------------------------------------------------------------- ClassFile

/// A class file, big-endian throughout.
#[derive(Debug)]
pub struct ClassFile<'a> {
    pub minor_version: u16,
    pub major_version: u16,
    pub constant_pool: ConstantPool<'a>,
    pub access_flags: u16,
    pub this_class: u16,
    pub super_class: u16,
    pub interfaces: Vec<CPIndex<'a, ClassInfo<'a>>>,
    pub fields: Vec<FieldInfo<'a>>,
    pub methods: Vec<MethodInfo<'a>>,
    pub attributes: Vec<AttributeInfo<'a>>,
}

/// The model of a class file.
pub struct ClassFileModel {
    pub minor_version: u16,
    pub major_version: u16,
    pub constant_pool: Seq<CPEntryModel>,
    pub access_flags: u16,
    pub this_class: u16,
    pub super_class: u16,
    pub interfaces: Seq<u16>,
    pub fields: Seq<()>,
    pub methods: Seq<()>,
    pub attributes: Seq<()>,
}

impl<'a> Model for ClassFile<'a> {
    type Spec = ClassFileModel;

    open spec fn model(&self) -> ClassFileModel {
        ClassFileModel {
            minor_version: self.minor_version,
            major_version: self.major_version,
            constant_pool: self.constant_pool.model(),
            access_flags: self.access_flags,
            this_class: self.this_class,
            super_class: self.super_class,
            interfaces: self.interfaces.model(),
            fields: self.fields.model(),
            methods: self.methods.model(),
            attributes: self.attributes.model(),
        }
    }
}

impl<'a> Default for ClassFile<'a> {
    /// All numbers zero, all sequences empty.
    fn default() -> (r: Self)
        ensures
            r.model() == (ClassFileModel {
                minor_version: 0,
                major_version: 0,
                constant_pool: Seq::empty(),
                access_flags: 0,
                this_class: 0,
                super_class: 0,
                interfaces: Seq::empty(),
                fields: Seq::empty(),
                methods: Seq::empty(),
                attributes: Seq::empty(),
            }),
    {
        let r = ClassFile {
            minor_version: 0,
            major_version: 0,
            constant_pool: ConstantPool::default(),
            access_flags: 0,
            this_class: 0,
            super_class: 0,
            interfaces: Vec::new(),
            fields: Vec::new(),
            methods: Vec::new(),
            attributes: Vec::new(),
        };
        assert(r.interfaces.model() =~= Seq::<u16>::empty());
        assert(r.fields.model() =~= Seq::<()>::empty());
        assert(r.methods.model() =~= Seq::<()>::empty());
        assert(r.attributes.model() =~= Seq::<()>::empty());
        r
    }
}

impl<'a> FromBytes<BigEndian, ()> for ClassFile<'a> {
    open spec fn spec_from_bytes(s: Seq<u8>) -> ReadOutcome<<Self as Model>::Spec> {
        read_then(expect(<u32 as FromBytes<BigEndian, ()>>::spec_from_bytes(s), CLASS_MAGIC), |_x: (), s: Seq<u8>|
        read_then(<u16 as FromBytes<BigEndian, ()>>::spec_from_bytes(s), |minor_version: u16, s: Seq<u8>|
        read_then(<u16 as FromBytes<BigEndian, ()>>::spec_from_bytes(s), |major_version: u16, s: Seq<u8>|
        read_then(<ConstantPool<'a> as FromBytes<BigEndian, ()>>::spec_from_bytes(s), |constant_pool: Seq<CPEntryModel>, s: Seq<u8>|
        read_then(<u16 as FromBytes<BigEndian, ()>>::spec_from_bytes(s), |access_flags: u16, s: Seq<u8>|
        read_then(<u16 as FromBytes<BigEndian, ()>>::spec_from_bytes(s), |this_class: u16, s: Seq<u8>|
        read_then(<u16 as FromBytes<BigEndian, ()>>::spec_from_bytes(s), |super_class: u16, s: Seq<u8>|
        read_then(<Vec<CPIndex<'a, ClassInfo<'a>>> as FromBytes<BigEndian, u16>>::spec_from_bytes(s), |interfaces: Seq<u16>, s: Seq<u8>|
        read_then(<Vec<FieldInfo<'a>> as FromBytes<BigEndian, u16>>::spec_from_bytes(s), |fields: Seq<()>, s: Seq<u8>|
        read_then(<Vec<MethodInfo<'a>> as FromBytes<BigEndian, u16>>::spec_from_bytes(s), |methods: Seq<()>, s: Seq<u8>|
        read_then(<Vec<AttributeInfo<'a>> as FromBytes<BigEndian, u16>>::spec_from_bytes(s), |attributes: Seq<()>, s: Seq<u8>|
        Ok((ClassFileModel {
            minor_version,
            major_version,
            constant_pool,
            access_flags,
            this_class,
            super_class,
            interfaces,
            fields,
            methods,
            attributes,
        }, s)))))))))))))
    }

    proof fn lemma_read_extends(s: Seq<u8>, t: Seq<u8>) {
        let s0 = s;
        <u32 as FromBytes<BigEndian, ()>>::lemma_read_extends(s0, t);
        if let Ok((v0, s1)) = <u32 as FromBytes<BigEndian, ()>>::spec_from_bytes(s0) {
            <u16 as FromBytes<BigEndian, ()>>::lemma_read_extends(s1, t);
            if let Ok((v1, s2)) = <u16 as FromBytes<BigEndian, ()>>::spec_from_bytes(s1) {
                <u16 as FromBytes<BigEndian, ()>>::lemma_read_extends(s2, t);
                if let Ok((v2, s3)) = <u16 as FromBytes<BigEndian, ()>>::spec_from_bytes(s2) {
                    <ConstantPool<'a> as FromBytes<BigEndian, ()>>::lemma_read_extends(s3, t);
                    if let Ok((v3, s4)) = <ConstantPool<'a> as FromBytes<BigEndian, ()>>::spec_from_bytes(s3) {
                        <u16 as FromBytes<BigEndian, ()>>::lemma_read_extends(s4, t);
                        if let Ok((v4, s5)) = <u16 as FromBytes<BigEndian, ()>>::spec_from_bytes(s4) {
                            <u16 as FromBytes<BigEndian, ()>>::lemma_read_extends(s5, t);
                            if let Ok((v5, s6)) = <u16 as FromBytes<BigEndian, ()>>::spec_from_bytes(s5) {
                                <u16 as FromBytes<BigEndian, ()>>::lemma_read_extends(s6, t);
                                if let Ok((v6, s7)) = <u16 as FromBytes<BigEndian, ()>>::spec_from_bytes(s6) {
                                    <Vec<CPIndex<'a, ClassInfo<'a>>> as FromBytes<BigEndian, u16>>::lemma_read_extends(s7, t);
                                    if let Ok((v7, s8)) = <Vec<CPIndex<'a, ClassInfo<'a>>> as FromBytes<BigEndian, u16>>::spec_from_bytes(s7) {
                                        <Vec<FieldInfo<'a>> as FromBytes<BigEndian, u16>>::lemma_read_extends(s8, t);
                                        if let Ok((v8, s9)) = <Vec<FieldInfo<'a>> as FromBytes<BigEndian, u16>>::spec_from_bytes(s8) {
                                            <Vec<MethodInfo<'a>> as FromBytes<BigEndian, u16>>::lemma_read_extends(s9, t);
                                            if let Ok((v9, s10)) = <Vec<MethodInfo<'a>> as FromBytes<BigEndian, u16>>::spec_from_bytes(s9) {
                                                <Vec<AttributeInfo<'a>> as FromBytes<BigEndian, u16>>::lemma_read_extends(s10, t);
                                            }
                                        }
                                    }
                                }
                            }
                        }
                    }
                }
            }
        }
    }

    fn from_bytes(input: &mut ByteReader) -> (r: ReadResult<Self>) {
        let magic = match <u32 as FromBytes<BigEndian, ()>>::from_bytes(input) {
            Ok(v) => v,
            Err(e) => return Err(e),
        };
        if magic != CLASS_MAGIC {
            return Err(ReadError::InvalidExpectation);
        }
        let minor_version = match <u16 as FromBytes<BigEndian, ()>>::from_bytes(input) {
            Ok(v) => v,
            Err(e) => return Err(e),
        };
        let major_version = match <u16 as FromBytes<BigEndian, ()>>::from_bytes(input) {
            Ok(v) => v,
            Err(e) => return Err(e),
        };
        let constant_pool = match <ConstantPool<'a> as FromBytes<BigEndian, ()>>::from_bytes(input) {
            Ok(v) => v,
            Err(e) => return Err(e),
        };
        let access_flags = match <u16 as FromBytes<BigEndian, ()>>::from_bytes(input) {
            Ok(v) => v,
            Err(e) => return Err(e),
        };
        let this_class = match <u16 as FromBytes<BigEndian, ()>>::from_bytes(input) {
            Ok(v) => v,
            Err(e) => return Err(e),
        };
        let super_class = match <u16 as FromBytes<BigEndian, ()>>::from_bytes(input) {
            Ok(v) => v,
            Err(e) => return Err(e),
        };
        let interfaces = match <Vec<CPIndex<'a, ClassInfo<'a>>> as FromBytes<BigEndian, u16>>::from_bytes(input) {
            Ok(v) => v,
            Err(e) => return Err(e),
        };
        let fields = match <Vec<FieldInfo<'a>> as FromBytes<BigEndian, u16>>::from_bytes(input) {
            Ok(v) => v,
            Err(e) => return Err(e),
        };
        let methods = match <Vec<MethodInfo<'a>> as FromBytes<BigEndian, u16>>::from_bytes(input) {
            Ok(v) => v,
            Err(e) => return Err(e),
        };
        let attributes = match <Vec<AttributeInfo<'a>> as FromBytes<BigEndian, u16>>::from_bytes(input) {
            Ok(v) => v,
            Err(e) => return Err(e),
        };
        Ok(ClassFile { minor_version, major_version, constant_pool, access_flags, this_class, super_class, interfaces, fields, methods, attributes })
    }
}

impl<'a> ToBytes<BigEndian, ()> for ClassFile<'a> {
    open spec fn spec_to_bytes(m: <Self as Model>::Spec) -> WriteOutcome {
        then_write(<u32 as ToBytes<BigEndian, ()>>::spec_to_bytes(CLASS_MAGIC),
        then_write(<u16 as ToBytes<BigEndian, ()>>::spec_to_bytes(m.minor_version),
        then_write(<u16 as ToBytes<BigEndian, ()>>::spec_to_bytes(m.major_version),
        then_write(<ConstantPool<'a> as ToBytes<BigEndian, ()>>::spec_to_bytes(m.constant_pool),
        then_write(<u16 as ToBytes<BigEndian, ()>>::spec_to_bytes(m.access_flags),
        then_write(<u16 as ToBytes<BigEndian, ()>>::spec_to_bytes(m.this_class),
        then_write(<u16 as ToBytes<BigEndian, ()>>::spec_to_bytes(m.super_class),
        then_write(<Vec<CPIndex<'a, ClassInfo<'a>>> as ToBytes<BigEndian, u16>>::spec_to_bytes(m.interfaces),
        then_write(<Vec<FieldInfo<'a>> as ToBytes<BigEndian, u16>>::spec_to_bytes(m.fields),
        then_write(<Vec<MethodInfo<'a>> as ToBytes<BigEndian, u16>>::spec_to_bytes(m.methods),
        <Vec<AttributeInfo<'a>> as ToBytes<BigEndian, u16>>::spec_to_bytes(m.attributes)))))))))))
    }

    fn to_bytes(&self, output: &mut Vec<u8>) -> (r: WriteResult) {
        let ghost start = output@;
        let ghost w0 = <u32 as ToBytes<BigEndian, ()>>::spec_to_bytes(CLASS_MAGIC);
        let ghost w1 = <u16 as ToBytes<BigEndian, ()>>::spec_to_bytes(self.minor_version.model());
        let ghost w2 = <u16 as ToBytes<BigEndian, ()>>::spec_to_bytes(self.major_version.model());
        let ghost w3 = <ConstantPool<'a> as ToBytes<BigEndian, ()>>::spec_to_bytes(self.constant_pool.model());
        let ghost w4 = <u16 as ToBytes<BigEndian, ()>>::spec_to_bytes(self.access_flags.model());
        let ghost w5 = <u16 as ToBytes<BigEndian, ()>>::spec_to_bytes(self.this_class.model());
        let ghost w6 = <u16 as ToBytes<BigEndian, ()>>::spec_to_bytes(self.super_class.model());
        let ghost w7 = <Vec<CPIndex<'a, ClassInfo<'a>>> as ToBytes<BigEndian, u16>>::spec_to_bytes(self.interfaces.model());
        let ghost w8 = <Vec<FieldInfo<'a>> as ToBytes<BigEndian, u16>>::spec_to_bytes(self.fields.model());
        let ghost w9 = <Vec<MethodInfo<'a>> as ToBytes<BigEndian, u16>>::spec_to_bytes(self.methods.model());
        let ghost w10 = <Vec<AttributeInfo<'a>> as ToBytes<BigEndian, u16>>::spec_to_bytes(self.attributes.model());
        let ghost rest10 = w10;
        let ghost rest9 = then_write(w9, rest10);
        let ghost rest8 = then_write(w8, rest9);
        let ghost rest7 = then_write(w7, rest8);
        let ghost rest6 = then_write(w6, rest7);
        let ghost rest5 = then_write(w5, rest6);
        let ghost rest4 = then_write(w4, rest5);
        let ghost rest3 = then_write(w3, rest4);
        let ghost rest2 = then_write(w2, rest3);
        let ghost rest1 = then_write(w1, rest2);
        let ghost rest0 = then_write(w0, rest1);
        let ghost mut done: Seq<u8> = Seq::empty();
        proof {
            lemma_prepend_nothing(rest0);
        }
        let ghost mid = output@;
        let magic: u32 = CLASS_MAGIC;
        let r = <u32 as ToBytes<BigEndian, ()>>::to_bytes(&magic, output);
        proof {
            lemma_write_step(rest0, done, w0, rest1, r, start, mid, output@);
        }
        if r.is_err() {
            return r;
        }
        proof {
            done = done + w0->Ok_0;
        }
        let ghost mid = output@;
        let r = <u16 as ToBytes<BigEndian, ()>>::to_bytes(&self.minor_version, output);
        proof {
            lemma_write_step(rest0, done, w1, rest2, r, start, mid, output@);
        }
        if r.is_err() {
            return r;
        }
        proof {
            done = done + w1->Ok_0;
        }
        let ghost mid = output@;
        let r = <u16 as ToBytes<BigEndian, ()>>::to_bytes(&self.major_version, output);
        proof {
            lemma_write_step(rest0, done, w2, rest3, r, start, mid, output@);
        }
        if r.is_err() {
            return r;
        }
        proof {
            done = done + w2->Ok_0;
        }
        let ghost mid = output@;
        let r = <ConstantPool<'a> as ToBytes<BigEndian, ()>>::to_bytes(&self.constant_pool, output);
        proof {
            lemma_write_step(rest0, done, w3, rest4, r, start, mid, output@);
        }
        if r.is_err() {
            return r;
        }
        proof {
            done = done + w3->Ok_0;
        }
        let ghost mid = output@;
        let r = <u16 as ToBytes<BigEndian, ()>>::to_bytes(&self.access_flags, output);
        proof {
            lemma_write_step(rest0, done, w4, rest5, r, start, mid, output@);
        }
        if r.is_err() {
            return r;
        }
        proof {
            done = done + w4->Ok_0;
        }
        let ghost mid = output@;
        let r = <u16 as ToBytes<BigEndian, ()>>::to_bytes(&self.this_class, output);
        proof {
            lemma_write_step(rest0, done, w5, rest6, r, start, mid, output@);
        }
        if r.is_err() {
            return r;
        }
        proof {
            done = done + w5->Ok_0;
        }
        let ghost mid = output@;
        let r = <u16 as ToBytes<BigEndian, ()>>::to_bytes(&self.super_class, output);
        proof {
            lemma_write_step(rest0, done, w6, rest7, r, start, mid, output@);
        }
        if r.is_err() {
            return r;
        }
        proof {
            done = done + w6->Ok_0;
        }
        let ghost mid = output@;
        let r = <Vec<CPIndex<'a, ClassInfo<'a>>> as ToBytes<BigEndian, u16>>::to_bytes(&self.interfaces, output);
        proof {
            lemma_write_step(rest0, done, w7, rest8, r, start, mid, output@);
        }
        if r.is_err() {
            return r;
        }
        proof {
            done = done + w7->Ok_0;
        }
        let ghost mid = output@;
        let r = <Vec<FieldInfo<'a>> as ToBytes<BigEndian, u16>>::to_bytes(&self.fields, output);
        proof {
            lemma_write_step(rest0, done, w8, rest9, r, start, mid, output@);
        }
        if r.is_err() {
            return r;
        }
        proof {
            done = done + w8->Ok_0;
        }
        let ghost mid = output@;
        let r = <Vec<MethodInfo<'a>> as ToBytes<BigEndian, u16>>::to_bytes(&self.methods, output);
        proof {
            lemma_write_step(rest0, done, w9, rest10, r, start, mid, output@);
        }
        if r.is_err() {
            return r;
        }
        proof {
            done = done + w9->Ok_0;
        }
        let ghost mid = output@;
        let r = <Vec<AttributeInfo<'a>> as ToBytes<BigEndian, u16>>::to_bytes(&self.attributes, output);
        proof {
            lemma_write_last(rest0, done, w10, r, start, mid, output@);
        }
        r
    }
}

impl<'a> Codec<BigEndian, ()> for ClassFile<'a> {
    #[verifier::spinoff_prover]
    #[verifier::rlimit(80)]
    proof fn lemma_write_read(m: <Self as Model>::Spec, rest: Seq<u8>) {
        if let Ok(b0) = <u32 as ToBytes<BigEndian, ()>>::spec_to_bytes(CLASS_MAGIC) {
            if let Ok(b1) = <u16 as ToBytes<BigEndian, ()>>::spec_to_bytes(m.minor_version) {
                if let Ok(b2) = <u16 as ToBytes<BigEndian, ()>>::spec_to_bytes(m.major_version) {
                    if let Ok(b3) = <ConstantPool<'a> as ToBytes<BigEndian, ()>>::spec_to_bytes(m.constant_pool) {
                        if let Ok(b4) = <u16 as ToBytes<BigEndian, ()>>::spec_to_bytes(m.access_flags) {
                            if let Ok(b5) = <u16 as ToBytes<BigEndian, ()>>::spec_to_bytes(m.this_class) {
                                if let Ok(b6) = <u16 as ToBytes<BigEndian, ()>>::spec_to_bytes(m.super_class) {
                                    if let Ok(b7) = <Vec<CPIndex<'a, ClassInfo<'a>>> as ToBytes<BigEndian, u16>>::spec_to_bytes(m.interfaces) {
                                        if let Ok(b8) = <Vec<FieldInfo<'a>> as ToBytes<BigEndian, u16>>::spec_to_bytes(m.fields) {
                                            if let Ok(b9) = <Vec<MethodInfo<'a>> as ToBytes<BigEndian, u16>>::spec_to_bytes(m.methods) {
                                                if let Ok(b10) = <Vec<AttributeInfo<'a>> as ToBytes<BigEndian, u16>>::spec_to_bytes(m.attributes) {
                                                    let x10 = b10;
                                                    let x9 = b9 + x10;
                                                    let x8 = b8 + x9;
                                                    let x7 = b7 + x8;
                                                    let x6 = b6 + x7;
                                                    let x5 = b5 + x6;
                                                    let x4 = b4 + x5;
                                                    let x3 = b3 + x4;
                                                    let x2 = b2 + x3;
                                                    let x1 = b1 + x2;
                                                    let x0 = b0 + x1;
                                                    <u32 as Codec<BigEndian, ()>>::lemma_write_read(CLASS_MAGIC, x1 + rest);
                                                    assert(x0 + rest =~= b0 + (x1 + rest));
                                                    <u16 as Codec<BigEndian, ()>>::lemma_write_read(m.minor_version, x2 + rest);
                                                    assert(x1 + rest =~= b1 + (x2 + rest));
                                                    <u16 as Codec<BigEndian, ()>>::lemma_write_read(m.major_version, x3 + rest);
                                                    assert(x2 + rest =~= b2 + (x3 + rest));
                                                    <ConstantPool<'a> as Codec<BigEndian, ()>>::lemma_write_read(m.constant_pool, x4 + rest);
                                                    assert(x3 + rest =~= b3 + (x4 + rest));
                                                    <u16 as Codec<BigEndian, ()>>::lemma_write_read(m.access_flags, x5 + rest);
                                                    assert(x4 + rest =~= b4 + (x5 + rest));
                                                    <u16 as Codec<BigEndian, ()>>::lemma_write_read(m.this_class, x6 + rest);
                                                    assert(x5 + rest =~= b5 + (x6 + rest));
                                                    <u16 as Codec<BigEndian, ()>>::lemma_write_read(m.super_class, x7 + rest);
                                                    assert(x6 + rest =~= b6 + (x7 + rest));
                                                    <Vec<CPIndex<'a, ClassInfo<'a>>> as Codec<BigEndian, u16>>::lemma_write_read(m.interfaces, x8 + rest);
                                                    assert(x7 + rest =~= b7 + (x8 + rest));
                                                    <Vec<FieldInfo<'a>> as Codec<BigEndian, u16>>::lemma_write_read(m.fields, x9 + rest);
                                                    assert(x8 + rest =~= b8 + (x9 + rest));
                                                    <Vec<MethodInfo<'a>> as Codec<BigEndian, u16>>::lemma_write_read(m.methods, x10 + rest);
                                                    assert(x9 + rest =~= b9 + (x10 + rest));
                                                    <Vec<AttributeInfo<'a>> as Codec<BigEndian, u16>>::lemma_write_read(m.attributes, rest);
                                                }
                                            }
                                        }
                                    }
                                }
                            }
                        }
                    }
                }
            }
        }
    }
}

impl<'a> Canonical<BigEndian, ()> for ClassFile<'a> {
    #[verifier::spinoff_prover]
    #[verifier::rlimit(80)]
    proof fn lemma_read_write(s: Seq<u8>) {
        let s0 = s;
        <u32 as Canonical<BigEndian, ()>>::lemma_read_write(s0);
        if let Ok((v0, s1)) = <u32 as FromBytes<BigEndian, ()>>::spec_from_bytes(s0) {
            if v0 == CLASS_MAGIC {
                <u16 as Canonical<BigEndian, ()>>::lemma_read_write(s1);
                if let Ok((v1, s2)) = <u16 as FromBytes<BigEndian, ()>>::spec_from_bytes(s1) {
                    <u16 as Canonical<BigEndian, ()>>::lemma_read_write(s2);
                    if let Ok((v2, s3)) = <u16 as FromBytes<BigEndian, ()>>::spec_from_bytes(s2) {
                        <ConstantPool<'a> as Canonical<BigEndian, ()>>::lemma_read_write(s3);
                        if let Ok((v3, s4)) = <ConstantPool<'a> as FromBytes<BigEndian, ()>>::spec_from_bytes(s3) {
                            <u16 as Canonical<BigEndian, ()>>::lemma_read_write(s4);
                            if let Ok((v4, s5)) = <u16 as FromBytes<BigEndian, ()>>::spec_from_bytes(s4) {
                                <u16 as Canonical<BigEndian, ()>>::lemma_read_write(s5);
                                if let Ok((v5, s6)) = <u16 as FromBytes<BigEndian, ()>>::spec_from_bytes(s5) {
                                    <u16 as Canonical<BigEndian, ()>>::lemma_read_write(s6);
                                    if let Ok((v6, s7)) = <u16 as FromBytes<BigEndian, ()>>::spec_from_bytes(s6) {
                                        <Vec<CPIndex<'a, ClassInfo<'a>>> as Canonical<BigEndian, u16>>::lemma_read_write(s7);
                                        if let Ok((v7, s8)) = <Vec<CPIndex<'a, ClassInfo<'a>>> as FromBytes<BigEndian, u16>>::spec_from_bytes(s7) {
                                            <Vec<FieldInfo<'a>> as Canonical<BigEndian, u16>>::lemma_read_write(s8);
                                            if let Ok((v8, s9)) = <Vec<FieldInfo<'a>> as FromBytes<BigEndian, u16>>::spec_from_bytes(s8) {
                                                <Vec<MethodInfo<'a>> as Canonical<BigEndian, u16>>::lemma_read_write(s9);
                                                if let Ok((v9, s10)) = <Vec<MethodInfo<'a>> as FromBytes<BigEndian, u16>>::spec_from_bytes(s9) {
                                                    <Vec<AttributeInfo<'a>> as Canonical<BigEndian, u16>>::lemma_read_write(s10);
                                                    if let Ok((v10, s11)) = <Vec<AttributeInfo<'a>> as FromBytes<BigEndian, u16>>::spec_from_bytes(s10) {
                                                        let b0 = <u32 as ToBytes<BigEndian, ()>>::spec_to_bytes(v0)->Ok_0;
                                                        let b1 = <u16 as ToBytes<BigEndian, ()>>::spec_to_bytes(v1)->Ok_0;
                                                        let b2 = <u16 as ToBytes<BigEndian, ()>>::spec_to_bytes(v2)->Ok_0;
                                                        let b3 = <ConstantPool<'a> as ToBytes<BigEndian, ()>>::spec_to_bytes(v3)->Ok_0;
                                                        let b4 = <u16 as ToBytes<BigEndian, ()>>::spec_to_bytes(v4)->Ok_0;
                                                        let b5 = <u16 as ToBytes<BigEndian, ()>>::spec_to_bytes(v5)->Ok_0;
                                                        let b6 = <u16 as ToBytes<BigEndian, ()>>::spec_to_bytes(v6)->Ok_0;
                                                        let b7 = <Vec<CPIndex<'a, ClassInfo<'a>>> as ToBytes<BigEndian, u16>>::spec_to_bytes(v7)->Ok_0;
                                                        let b8 = <Vec<FieldInfo<'a>> as ToBytes<BigEndian, u16>>::spec_to_bytes(v8)->Ok_0;
                                                        let b9 = <Vec<MethodInfo<'a>> as ToBytes<BigEndian, u16>>::spec_to_bytes(v9)->Ok_0;
                                                        let b10 = <Vec<AttributeInfo<'a>> as ToBytes<BigEndian, u16>>::spec_to_bytes(v10)->Ok_0;
                                                        let x10 = b10;
                                                        let x9 = b9 + x10;
                                                        let x8 = b8 + x9;
                                                        let x7 = b7 + x8;
                                                        let x6 = b6 + x7;
                                                        let x5 = b5 + x6;
                                                        let x4 = b4 + x5;
                                                        let x3 = b3 + x4;
                                                        let x2 = b2 + x3;
                                                        let x1 = b1 + x2;
                                                        let x0 = b0 + x1;
                                                        let w10 = <Vec<AttributeInfo<'a>> as ToBytes<BigEndian, u16>>::spec_to_bytes(v10);
                                                        let w9 = then_write(<Vec<MethodInfo<'a>> as ToBytes<BigEndian, u16>>::spec_to_bytes(v9), w10);
                                                        let w8 = then_write(<Vec<FieldInfo<'a>> as ToBytes<BigEndian, u16>>::spec_to_bytes(v8), w9);
                                                        let w7 = then_write(<Vec<CPIndex<'a, ClassInfo<'a>>> as ToBytes<BigEndian, u16>>::spec_to_bytes(v7), w8);
                                                        let w6 = then_write(<u16 as ToBytes<BigEndian, ()>>::spec_to_bytes(v6), w7);
                                                        let w5 = then_write(<u16 as ToBytes<BigEndian, ()>>::spec_to_bytes(v5), w6);
                                                        let w4 = then_write(<u16 as ToBytes<BigEndian, ()>>::spec_to_bytes(v4), w5);
                                                        let w3 = then_write(<ConstantPool<'a> as ToBytes<BigEndian, ()>>::spec_to_bytes(v3), w4);
                                                        let w2 = then_write(<u16 as ToBytes<BigEndian, ()>>::spec_to_bytes(v2), w3);
                                                        let w1 = then_write(<u16 as ToBytes<BigEndian, ()>>::spec_to_bytes(v1), w2);
                                                        let w0 = then_write(<u32 as ToBytes<BigEndian, ()>>::spec_to_bytes(v0), w1);
                                                        assert(w10 == Ok::<Seq<u8>, (Seq<u8>, WriteError)>(x10));
                                                        assert(w9 == Ok::<Seq<u8>, (Seq<u8>, WriteError)>(x9));
                                                        assert(w8 == Ok::<Seq<u8>, (Seq<u8>, WriteError)>(x8));
                                                        assert(w7 == Ok::<Seq<u8>, (Seq<u8>, WriteError)>(x7));
                                                        assert(w6 == Ok::<Seq<u8>, (Seq<u8>, WriteError)>(x6));
                                                        assert(w5 == Ok::<Seq<u8>, (Seq<u8>, WriteError)>(x5));
                                                        assert(w4 == Ok::<Seq<u8>, (Seq<u8>, WriteError)>(x4));
                                                        assert(w3 == Ok::<Seq<u8>, (Seq<u8>, WriteError)>(x3));
                                                        assert(w2 == Ok::<Seq<u8>, (Seq<u8>, WriteError)>(x2));
                                                        assert(w1 == Ok::<Seq<u8>, (Seq<u8>, WriteError)>(x1));
                                                        assert(w0 == Ok::<Seq<u8>, (Seq<u8>, WriteError)>(x0));
                                                        assert(s9 =~= x9 + s11);
                                                        assert(s8 =~= x8 + s11);
                                                        assert(s7 =~= x7 + s11);
                                                        assert(s6 =~= x6 + s11);
                                                        assert(s5 =~= x5 + s11);
                                                        assert(s4 =~= x4 + s11);
                                                        assert(s3 =~= x3 + s11);
                                                        assert(s2 =~= x2 + s11);
                                                        assert(s1 =~= x1 + s11);
                                                        assert(s0 =~= x0 + s11);
                                                    }
                                                }
                                            }
                                        }
                                    }
                                }
                            }
                        }
                    }
                }
            }
        }
    }
}
// ---------------------------------------------------------------- Container

/// Bytes after a one-byte count, in any byte order.
#[derive(Debug)]
pub struct Container {
    pub value: Vec<u8>,
}

impl Model for Container {
    type Spec = Seq<u8>;

    open spec fn model(&self) -> Seq<u8> {
        self.value.model()
    }
}

impl<E: ByteOrder> FromBytes<E, ()> for Container {
    open spec fn spec_from_bytes(s: Seq<u8>) -> ReadOutcome<Seq<u8>> {
        <Vec<u8> as FromBytes<E, u8>>::spec_from_bytes(s)
    }

    proof fn lemma_read_extends(s: Seq<u8>, t: Seq<u8>) {
        <Vec<u8> as FromBytes<E, u8>>::lemma_read_extends(s, t);
    }

    fn from_bytes(input: &mut ByteReader) -> (r: ReadResult<Self>) {
        let value = match <Vec<u8> as FromBytes<E, u8>>::from_bytes(input) {
            Ok(v) => v,
            Err(e) => return Err(e),
        };
        Ok(Container { value })
    }
}

} // verus!
