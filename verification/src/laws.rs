use vstd::prelude::*;
use crate::error::{ReadError, WriteError};
use crate::endian::{BigEndian, ByteOrder, LittleEndian};
use crate::codec::{Codec, FromBytes, ToBytes, eof, then_write};
use crate::sequence::LengthPrefix;
use crate::classfile::{
    AttributeInfo, CLASS_MAGIC, CPIndex, ClassFile, ClassFileModel, ClassInfo, ConstantPool,
    FieldInfo, MethodInfo,
};

verus! {

/// The big-endian bytes of a `u16` are its little-endian bytes reversed.
pub proof fn law_u16_big_endian_reverses_little(v: u16)
    ensures
        <u16 as ToBytes<BigEndian, ()>>::spec_to_bytes(v) == Ok::<Seq<u8>, (Seq<u8>, WriteError)>(
            <u16 as ToBytes<LittleEndian, ()>>::spec_to_bytes(v)->Ok_0.reverse(),
        ),
{
}

/// The big-endian bytes of a `u32` are its little-endian bytes reversed.
pub proof fn law_u32_big_endian_reverses_little(v: u32)
    ensures
        <u32 as ToBytes<BigEndian, ()>>::spec_to_bytes(v) == Ok::<Seq<u8>, (Seq<u8>, WriteError)>(
            <u32 as ToBytes<LittleEndian, ()>>::spec_to_bytes(v)->Ok_0.reverse(),
        ),
{
}

/// The big-endian bytes of a `u64` are its little-endian bytes reversed.
pub proof fn law_u64_big_endian_reverses_little(v: u64)
    ensures
        <u64 as ToBytes<BigEndian, ()>>::spec_to_bytes(v) == Ok::<Seq<u8>, (Seq<u8>, WriteError)>(
            <u64 as ToBytes<LittleEndian, ()>>::spec_to_bytes(v)->Ok_0.reverse(),
        ),
{
}

/// Reading a value does not look past its own bytes: when reading from the
/// front of `s` succeeds, reading from the front of `s` followed by `t`
/// gives the same value, and leaves what was left before, followed by `t`;
/// when it fails for another reason than running out of input, it fails in
/// the same way.
pub proof fn law_read_ignores_what_follows<E: ByteOrder, L, T: FromBytes<E, L>>(
    s: Seq<u8>,
    t: Seq<u8>,
)
    ensures
        T::spec_from_bytes(s) matches Ok((m, rest)) ==> T::spec_from_bytes(s + t) == Ok::<
            (T::Spec, Seq<u8>),
            (ReadError, Seq<u8>),
        >((m, rest + t)),
        T::spec_from_bytes(s) matches Err((e, rest)) ==> (e != eof() ==> T::spec_from_bytes(s + t)
            == Err::<(T::Spec, Seq<u8>), (ReadError, Seq<u8>)>((e, rest + t))),
{
    T::lemma_read_extends(s, t);
}

/// An encoding cut short is reported as such: when writing a value gives the
/// bytes `b`, reading any proper prefix of `b` fails with an unexpected end
/// of input, never with another error or a value.
pub proof fn law_cut_encoding_runs_out<E: ByteOrder, L, T: Codec<E, L>>(m: T::Spec, k: int)
    requires
        0 <= k,
    ensures
        T::spec_to_bytes(m) matches Ok(b) ==> (k < b.len() ==> (T::spec_from_bytes(b.take(k)) matches Err(
            (e, _),
        ) && e == eof())),
{
    if let Ok(b) = T::spec_to_bytes(m) {
        if k < b.len() {
            let s = b.take(k);
            let t = b.skip(k);
            assert(s + t =~= b);
            assert(b + Seq::<u8>::empty() =~= b);
            T::lemma_read_extends(s, t);
            T::lemma_write_read(m, Seq::empty());
            if let Ok((m2, r)) = T::spec_from_bytes(s) {
                assert((r + t).len() == 0);
            }
        }
    }
}

/// A sequence longer than its length prefix can hold is refused with its
/// length, and nothing of it is written.
pub proof fn law_too_long_sequence_writes_nothing<
    E: ByteOrder,
    L: LengthPrefix + ToBytes<E, ()>,
    T: ToBytes<E, ()>,
>(ms: Seq<T::Spec>)
    requires
        ms.len() > L::spec_max(),
    ensures
        <Vec<T> as ToBytes<E, L>>::spec_to_bytes(ms) == Err::<Seq<u8>, (Seq<u8>, WriteError)>(
            (Seq::empty(), WriteError::TooLarge(ms.len() as usize)),
        ),
{
}

/// A class file is written as its parts one after another, in the order the
/// structure declares them: the magic number, the minor and major versions,
/// the constant pool, the access flags, this class, the super class, then
/// the counted interfaces, fields, methods and attributes. Read back, with
/// anything after them, those bytes give the class file.
#[verifier::spinoff_prover]
#[verifier::rlimit(40)]
pub proof fn law_class_file_parts_in_order<'a>(m: ClassFileModel, rest: Seq<u8>)
    ensures
        ({
            let w0 = <u32 as ToBytes<BigEndian, ()>>::spec_to_bytes(CLASS_MAGIC);
            let w1 = <u16 as ToBytes<BigEndian, ()>>::spec_to_bytes(m.minor_version);
            let w2 = <u16 as ToBytes<BigEndian, ()>>::spec_to_bytes(m.major_version);
            let w3 = <ConstantPool<'a> as ToBytes<BigEndian, ()>>::spec_to_bytes(m.constant_pool);
            let w4 = <u16 as ToBytes<BigEndian, ()>>::spec_to_bytes(m.access_flags);
            let w5 = <u16 as ToBytes<BigEndian, ()>>::spec_to_bytes(m.this_class);
            let w6 = <u16 as ToBytes<BigEndian, ()>>::spec_to_bytes(m.super_class);
            let w7 = <Vec<CPIndex<'a, ClassInfo<'a>>> as ToBytes<BigEndian, u16>>::spec_to_bytes(m.interfaces);
            let w8 = <Vec<FieldInfo<'a>> as ToBytes<BigEndian, u16>>::spec_to_bytes(m.fields);
            let w9 = <Vec<MethodInfo<'a>> as ToBytes<BigEndian, u16>>::spec_to_bytes(m.methods);
            let w10 = <Vec<AttributeInfo<'a>> as ToBytes<BigEndian, u16>>::spec_to_bytes(m.attributes);
            (w0 is Ok && w1 is Ok && w2 is Ok && w3 is Ok && w4 is Ok && w5 is Ok && w6 is Ok && w7 is Ok && w8 is Ok && w9 is Ok && w10 is Ok) ==> {
                &&& <ClassFile<'a> as ToBytes<BigEndian, ()>>::spec_to_bytes(m) == Ok::<
                    Seq<u8>,
                    (Seq<u8>, WriteError),
                >(w0->Ok_0 + w1->Ok_0 + w2->Ok_0 + w3->Ok_0 + w4->Ok_0 + w5->Ok_0 + w6->Ok_0 + w7->Ok_0 + w8->Ok_0 + w9->Ok_0 + w10->Ok_0)
                &&& <ClassFile<'a> as FromBytes<BigEndian, ()>>::spec_from_bytes(
                    (w0->Ok_0 + w1->Ok_0 + w2->Ok_0 + w3->Ok_0 + w4->Ok_0 + w5->Ok_0 + w6->Ok_0 + w7->Ok_0 + w8->Ok_0 + w9->Ok_0 + w10->Ok_0) + rest,
                ) == Ok::<(ClassFileModel, Seq<u8>), (ReadError, Seq<u8>)>((m, rest))
            }
        }),
{
    let w0 = <u32 as ToBytes<BigEndian, ()>>::spec_to_bytes(CLASS_MAGIC);
    let w1 = <u16 as ToBytes<BigEndian, ()>>::spec_to_bytes(m.minor_version);
    let w2 = <u16 as ToBytes<BigEndian, ()>>::spec_to_bytes(m.major_version);
    let w3 = <ConstantPool<'a> as ToBytes<BigEndian, ()>>::spec_to_bytes(m.constant_pool);
    let w4 = <u16 as ToBytes<BigEndian, ()>>::spec_to_bytes(m.access_flags);
    let w5 = <u16 as ToBytes<BigEndian, ()>>::spec_to_bytes(m.this_class);
    let w6 = <u16 as ToBytes<BigEndian, ()>>::spec_to_bytes(m.super_class);
    let w7 = <Vec<CPIndex<'a, ClassInfo<'a>>> as ToBytes<BigEndian, u16>>::spec_to_bytes(m.interfaces);
    let w8 = <Vec<FieldInfo<'a>> as ToBytes<BigEndian, u16>>::spec_to_bytes(m.fields);
    let w9 = <Vec<MethodInfo<'a>> as ToBytes<BigEndian, u16>>::spec_to_bytes(m.methods);
    let w10 = <Vec<AttributeInfo<'a>> as ToBytes<BigEndian, u16>>::spec_to_bytes(m.attributes);
    if w0 is Ok && w1 is Ok && w2 is Ok && w3 is Ok && w4 is Ok && w5 is Ok && w6 is Ok && w7 is Ok && w8 is Ok && w9 is Ok && w10 is Ok {
        let x10 = w10->Ok_0;
        let x9 = w9->Ok_0 + x10;
        let x8 = w8->Ok_0 + x9;
        let x7 = w7->Ok_0 + x8;
        let x6 = w6->Ok_0 + x7;
        let x5 = w5->Ok_0 + x6;
        let x4 = w4->Ok_0 + x5;
        let x3 = w3->Ok_0 + x4;
        let x2 = w2->Ok_0 + x3;
        let x1 = w1->Ok_0 + x2;
        let x0 = w0->Ok_0 + x1;
        let c10 = w10;
        let c9 = then_write(w9, c10);
        let c8 = then_write(w8, c9);
        let c7 = then_write(w7, c8);
        let c6 = then_write(w6, c7);
        let c5 = then_write(w5, c6);
        let c4 = then_write(w4, c5);
        let c3 = then_write(w3, c4);
        let c2 = then_write(w2, c3);
        let c1 = then_write(w1, c2);
        let c0 = then_write(w0, c1);
        assert(c10 == Ok::<Seq<u8>, (Seq<u8>, WriteError)>(x10));
        assert(c9 == Ok::<Seq<u8>, (Seq<u8>, WriteError)>(x9));
        assert(c8 == Ok::<Seq<u8>, (Seq<u8>, WriteError)>(x8));
        assert(c7 == Ok::<Seq<u8>, (Seq<u8>, WriteError)>(x7));
        assert(c6 == Ok::<Seq<u8>, (Seq<u8>, WriteError)>(x6));
        assert(c5 == Ok::<Seq<u8>, (Seq<u8>, WriteError)>(x5));
        assert(c4 == Ok::<Seq<u8>, (Seq<u8>, WriteError)>(x4));
        assert(c3 == Ok::<Seq<u8>, (Seq<u8>, WriteError)>(x3));
        assert(c2 == Ok::<Seq<u8>, (Seq<u8>, WriteError)>(x2));
        assert(c1 == Ok::<Seq<u8>, (Seq<u8>, WriteError)>(x1));
        assert(c0 == Ok::<Seq<u8>, (Seq<u8>, WriteError)>(x0));
        assert(<ClassFile<'a> as ToBytes<BigEndian, ()>>::spec_to_bytes(m) == c0);
        assert(x0 =~= w0->Ok_0 + w1->Ok_0 + w2->Ok_0 + w3->Ok_0 + w4->Ok_0 + w5->Ok_0 + w6->Ok_0 + w7->Ok_0 + w8->Ok_0 + w9->Ok_0 + w10->Ok_0);
        <ClassFile<'a> as Codec<BigEndian, ()>>::lemma_write_read(m, rest);
    }
}

/// A `bool` is read from one byte: any byte but zero is `true`. Reading a
/// `bool` is reading a `u8` and asking whether it is not zero.
pub proof fn law_bool_reads_nonzero_as_true<E: ByteOrder, L>(b: u8, s: Seq<u8>)
    ensures
        <bool as FromBytes<E, L>>::spec_from_bytes(seq![b] + s) == Ok::<
            (bool, Seq<u8>),
            (ReadError, Seq<u8>),
        >((b != 0, s)),
        <bool as FromBytes<E, L>>::spec_from_bytes(s) == match <u8 as FromBytes<
            E,
            L,
        >>::spec_from_bytes(s) {
            Ok((x, r)) => Ok::<(bool, Seq<u8>), (ReadError, Seq<u8>)>((x != 0, r)),
            Err(e) => Err(e),
        },
{
    assert((seq![b] + s)[0] == b);
    assert((seq![b] + s).skip(1) =~= s);
}

} // verus!
