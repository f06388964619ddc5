use vstd::prelude::*;
use crate::error::{ReadError, ReadResult, WriteError, WriteResult};
use crate::endian::ByteOrder;
use crate::reader::ByteReader;
use crate::codec::{
    Canonical, Codec, FromBytes, Model, ReadOutcome, ToBytes, WriteOutcome, eof, prepend_write,
    then_write,
};

verus! {

// ---------------------------------------------------------------- sequences

/// Integer types that can stand before a sequence as the number of its
/// elements when it is written: the length must fit the type.
pub trait LengthPrefix: Model + Sized {
    /// The largest length that a prefix of this type can hold.
    spec fn spec_max() -> nat;

    /// The model of the prefix that stands for length `n`.
    spec fn spec_prefix(n: nat) -> Self::Spec;

    /// The prefix for length `n`, if one of this type can hold it.
    fn try_from_len(n: usize) -> (r: Option<Self>)
        ensures
            r is Some <==> n <= Self::spec_max(),
            r matches Some(p) ==> p.model() == Self::spec_prefix(n as nat),
    ;
}

/// Length prefixes that can also be read back as a length.
pub trait LengthCount: LengthPrefix {
    /// The length that a prefix with model `m` stands for.
    spec fn spec_count(m: Self::Spec) -> nat;

    /// The length that this prefix stands for.
    fn count(&self) -> (n: usize)
        ensures
            n == Self::spec_count(self.model()),
    ;

    /// The prefix for a length stands for that length.
    proof fn lemma_count(n: nat)
        requires
            n <= Self::spec_max(),
        ensures
            Self::spec_count(Self::spec_prefix(n)) == n,
    ;

    /// Every prefix is the prefix for the length it stands for.
    proof fn lemma_prefix(m: Self::Spec)
        ensures
            Self::spec_count(m) <= Self::spec_max(),
            Self::spec_prefix(Self::spec_count(m)) == m,
    ;
}

impl LengthPrefix for u8 {
    open spec fn spec_max() -> nat {
        u8::MAX as nat
    }

    open spec fn spec_prefix(n: nat) -> u8 {
        n as u8
    }

    fn try_from_len(n: usize) -> (r: Option<u8>) {
        match u8::try_from(n) {
            Ok(p) => Some(p),
            Err(_) => None,
        }
    }
}

impl LengthPrefix for u16 {
    open spec fn spec_max() -> nat {
        u16::MAX as nat
    }

    open spec fn spec_prefix(n: nat) -> u16 {
        n as u16
    }

    fn try_from_len(n: usize) -> (r: Option<u16>) {
        match u16::try_from(n) {
            Ok(p) => Some(p),
            Err(_) => None,
        }
    }
}

impl LengthPrefix for u32 {
    open spec fn spec_max() -> nat {
        u32::MAX as nat
    }

    open spec fn spec_prefix(n: nat) -> u32 {
        n as u32
    }

    fn try_from_len(n: usize) -> (r: Option<u32>) {
        match u32::try_from(n) {
            Ok(p) => Some(p),
            Err(_) => None,
        }
    }
}

impl LengthPrefix for u64 {
    open spec fn spec_max() -> nat {
        u64::MAX as nat
    }

    open spec fn spec_prefix(n: nat) -> u64 {
        n as u64
    }

    fn try_from_len(n: usize) -> (r: Option<u64>) {
        match u64::try_from(n) {
            Ok(p) => Some(p),
            Err(_) => None,
        }
    }
}

impl LengthPrefix for i8 {
    open spec fn spec_max() -> nat {
        i8::MAX as nat
    }

    open spec fn spec_prefix(n: nat) -> i8 {
        n as i8
    }

    fn try_from_len(n: usize) -> (r: Option<i8>) {
        match i8::try_from(n) {
            Ok(p) => Some(p),
            Err(_) => None,
        }
    }
}

impl LengthPrefix for i16 {
    open spec fn spec_max() -> nat {
        i16::MAX as nat
    }

    open spec fn spec_prefix(n: nat) -> i16 {
        n as i16
    }

    fn try_from_len(n: usize) -> (r: Option<i16>) {
        match i16::try_from(n) {
            Ok(p) => Some(p),
            Err(_) => None,
        }
    }
}

impl LengthPrefix for i32 {
    open spec fn spec_max() -> nat {
        i32::MAX as nat
    }

    open spec fn spec_prefix(n: nat) -> i32 {
        n as i32
    }

    fn try_from_len(n: usize) -> (r: Option<i32>) {
        match i32::try_from(n) {
            Ok(p) => Some(p),
            Err(_) => None,
        }
    }
}

impl LengthPrefix for i64 {
    open spec fn spec_max() -> nat {
        i64::MAX as nat
    }

    open spec fn spec_prefix(n: nat) -> i64 {
        n as i64
    }

    fn try_from_len(n: usize) -> (r: Option<i64>) {
        match i64::try_from(n) {
            Ok(p) => Some(p),
            Err(_) => None,
        }
    }
}

impl LengthCount for u8 {
    open spec fn spec_count(m: u8) -> nat {
        m as nat
    }

    fn count(&self) -> (n: usize) {
        usize::from(*self)
    }

    proof fn lemma_count(n: nat) {
    }

    proof fn lemma_prefix(m: u8) {
    }
}

impl LengthCount for u16 {
    open spec fn spec_count(m: u16) -> nat {
        m as nat
    }

    fn count(&self) -> (n: usize) {
        usize::from(*self)
    }

    proof fn lemma_count(n: nat) {
    }

    proof fn lemma_prefix(m: u16) {
    }
}

impl<T: Model> Model for Vec<T> {
    type Spec = Seq<T::Spec>;

    open spec fn model(&self) -> Seq<T::Spec> {
        Seq::new(self@.len(), |i: int| self@[i].model())
    }
}

/// Reading `n` values of `T` one after another.
pub open spec fn read_elems<E: ByteOrder, T: FromBytes<E, ()>>(s: Seq<u8>, n: nat) -> ReadOutcome<
    Seq<T::Spec>,
>
    decreases n,
{
    if n == 0 {
        Ok((Seq::empty(), s))
    } else {
        match T::spec_from_bytes(s) {
            Err(x) => Err(x),
            Ok((m, rest)) => match read_elems::<E, T>(rest, (n - 1) as nat) {
                Err(x) => Err(x),
                Ok((ms, after)) => Ok((seq![m] + ms, after)),
            },
        }
    }
}

/// Writing the values `ms` of `T` one after another.
pub open spec fn write_elems<E: ByteOrder, T: ToBytes<E, ()>>(ms: Seq<T::Spec>) -> WriteOutcome
    decreases ms.len(),
{
    if ms.len() == 0 {
        Ok(Seq::empty())
    } else {
        then_write(T::spec_to_bytes(ms[0]), write_elems::<E, T>(ms.drop_first()))
    }
}

/// A read outcome with `acc` put before the values read.
pub open spec fn prepend_read<M>(acc: Seq<M>, o: ReadOutcome<Seq<M>>) -> ReadOutcome<Seq<M>> {
    match o {
        Ok((ms, rest)) => Ok((acc + ms, rest)),
        Err(x) => Err(x),
    }
}

/// Reading `n` values gives `n` values.
pub proof fn lemma_read_elems_len<E: ByteOrder, T: FromBytes<E, ()>>(s: Seq<u8>, n: nat)
    ensures
        read_elems::<E, T>(s, n) matches Ok((ms, _)) ==> ms.len() == n,
    decreases n,
{
    if n > 0 {
        if let Ok((m, rest)) = T::spec_from_bytes(s) {
            lemma_read_elems_len::<E, T>(rest, (n - 1) as nat);
        }
    }
}

/// Reading `n` values does not look past the bytes it consumes.
pub proof fn lemma_read_elems_extends<E: ByteOrder, T: FromBytes<E, ()>>(
    s: Seq<u8>,
    t: Seq<u8>,
    n: nat,
)
    ensures
        read_elems::<E, T>(s, n) matches Ok((ms, rest)) ==> read_elems::<E, T>(s + t, n) == Ok::<
            (Seq<T::Spec>, Seq<u8>),
            (ReadError, Seq<u8>),
        >((ms, rest + t)),
        read_elems::<E, T>(s, n) matches Err((e, rest)) ==> (e != eof() ==> read_elems::<E, T>(
            s + t,
            n,
        ) == Err::<(Seq<T::Spec>, Seq<u8>), (ReadError, Seq<u8>)>((e, rest + t))),
    decreases n,
{
    if n > 0 {
        T::lemma_read_extends(s, t);
        if let Ok((m, r)) = T::spec_from_bytes(s) {
            lemma_read_elems_extends::<E, T>(r, t, (n - 1) as nat);
        }
    }
}

/// Reading back values that were written gives them back.
pub proof fn lemma_elems_write_read<E: ByteOrder, T: Codec<E, ()>>(ms: Seq<T::Spec>, rest: Seq<u8>)
    ensures
        write_elems::<E, T>(ms) matches Ok(b) ==> read_elems::<E, T>(b + rest, ms.len())
            == Ok::<(Seq<T::Spec>, Seq<u8>), (ReadError, Seq<u8>)>((ms, rest)),
    decreases ms.len(),
{
    if ms.len() == 0 {
        assert(Seq::<u8>::empty() + rest =~= rest);
        assert(Seq::<T::Spec>::empty() =~= ms);
    } else {
        let tail = ms.drop_first();
        if let Ok(b0) = T::spec_to_bytes(ms[0]) {
            if let Ok(b1) = write_elems::<E, T>(tail) {
                lemma_elems_write_read::<E, T>(tail, rest);
                T::lemma_write_read(ms[0], b1 + rest);
                assert(b0 + b1 + rest =~= b0 + (b1 + rest));
                assert(seq![ms[0]] + tail =~= ms);
            }
        }
    }
}

/// Writing values that were read gives back the bytes they were read from.
pub proof fn lemma_elems_read_write<E: ByteOrder, T: Canonical<E, ()>>(s: Seq<u8>, n: nat)
    ensures
        read_elems::<E, T>(s, n) matches Ok((ms, rest)) ==> (write_elems::<E, T>(ms) matches Ok(b)
            && s == b + rest),
    decreases n,
{
    if n == 0 {
        assert(Seq::<u8>::empty() + s =~= s);
    } else {
        if let Ok((m, r0)) = T::spec_from_bytes(s) {
            if let Ok((ms1, rest)) = read_elems::<E, T>(r0, (n - 1) as nat) {
                lemma_elems_read_write::<E, T>(r0, (n - 1) as nat);
                T::lemma_read_write(s);
                let ms = seq![m] + ms1;
                assert(ms[0] == m);
                assert(ms.drop_first() =~= ms1);
                let b0 = T::spec_to_bytes(m)->Ok_0;
                let b1 = write_elems::<E, T>(ms1)->Ok_0;
                assert(s =~= (b0 + b1) + rest);
            }
        }
    }
}

impl<E: ByteOrder, L: LengthCount + FromBytes<E, ()>, T: FromBytes<E, ()>> FromBytes<E, L> for Vec<
    T,
> {
    /// A length prefix of type `L`, then that many values.
    open spec fn spec_from_bytes(s: Seq<u8>) -> ReadOutcome<Seq<T::Spec>> {
        match <L as FromBytes<E, ()>>::spec_from_bytes(s) {
            Err(x) => Err(x),
            Ok((c, rest)) => read_elems::<E, T>(rest, L::spec_count(c)),
        }
    }

    proof fn lemma_read_extends(s: Seq<u8>, t: Seq<u8>) {
        <L as FromBytes<E, ()>>::lemma_read_extends(s, t);
        if let Ok((c, r)) = <L as FromBytes<E, ()>>::spec_from_bytes(s) {
            lemma_read_elems_extends::<E, T>(r, t, L::spec_count(c));
        }
    }

    fn from_bytes(input: &mut ByteReader) -> (r: ReadResult<Vec<T>>) {
        let count = match <L as FromBytes<E, ()>>::from_bytes(input) {
            Ok(c) => c,
            Err(e) => return Err(e),
        };
        let n = count.count();
        let ghost s0 = input.remaining();
        let mut output: Vec<T> = Vec::with_capacity(n);
        let mut i: usize = 0;
        assert(output.model() =~= Seq::<T::Spec>::empty());
        assert(Seq::<T::Spec>::empty() + Seq::<T::Spec>::empty() =~= Seq::<T::Spec>::empty());
        while i < n
            invariant
                0 <= i <= n,
                input.bytes() == old(input).bytes(),
                <Self as FromBytes<E, L>>::spec_from_bytes(old(input).remaining()) == read_elems::<
                    E,
                    T,
                >(s0, n as nat),
                output@.len() == i,
                read_elems::<E, T>(s0, n as nat) == prepend_read(
                    output.model(),
                    read_elems::<E, T>(input.remaining(), (n - i) as nat),
                ),
            decreases n - i,
        {
            let ghost acc = output.model();
            let ghost cur = input.remaining();
            let v = match T::from_bytes(input) {
                Ok(v) => v,
                Err(e) => {
                    assert(read_elems::<E, T>(cur, (n - i) as nat) == Err::<
                        (Seq<T::Spec>, Seq<u8>),
                        (ReadError, Seq<u8>),
                    >((e, input.remaining())));
                    return Err(e);
                },
            };
            output.push(v);
            i = i + 1;
            proof {
                assert(output.model() =~= acc.push(v.model()));
                if let Ok((ms, after)) = read_elems::<E, T>(input.remaining(), (n - i) as nat) {
                    assert(acc + (seq![v.model()] + ms) =~= acc.push(v.model()) + ms);
                }
            }
        }
        assert(output.model() + Seq::<T::Spec>::empty() =~= output.model());
        Ok(output)
    }
}

impl<E: ByteOrder, L: LengthPrefix + ToBytes<E, ()>, T: ToBytes<E, ()>> ToBytes<E, L> for Vec<T> {
    /// A length prefix of type `L`, then the values; a sequence too long for
    /// the prefix is refused before anything is written.
    open spec fn spec_to_bytes(ms: Seq<T::Spec>) -> WriteOutcome {
        if ms.len() > L::spec_max() {
            Err((Seq::empty(), WriteError::TooLarge(ms.len() as usize)))
        } else {
            then_write(
                <L as ToBytes<E, ()>>::spec_to_bytes(L::spec_prefix(ms.len())),
                write_elems::<E, T>(ms),
            )
        }
    }

    fn to_bytes(&self, output: &mut Vec<u8>) -> (r: WriteResult) {
        let len = self.len();
        let prefix = match L::try_from_len(len) {
            Some(p) => p,
            None => {
                assert(output@ =~= old(output)@ + Seq::<u8>::empty());
                return Err(WriteError::TooLarge(len));
            },
        };
        match <L as ToBytes<E, ()>>::to_bytes(&prefix, output) {
            Ok(()) => {},
            Err(e) => return Err(e),
        }
        let ghost ms = self.model();
        let mut i: usize = 0;
        assert(ms.skip(0) =~= ms);
        proof {
            let pb = <L as ToBytes<E, ()>>::spec_to_bytes(L::spec_prefix(len as nat))->Ok_0;
            assert(output@.subrange(old(output)@.len() as int, output@.len() as int) =~= pb);
            assert(output@ =~= old(output)@ + pb);
        }
        while i < len
            invariant
                0 <= i <= len,
                len == self@.len(),
                ms == self.model(),
                output@.len() >= old(output)@.len(),
                <Self as ToBytes<E, L>>::spec_to_bytes(ms) == prepend_write(
                    output@.subrange(old(output)@.len() as int, output@.len() as int),
                    write_elems::<E, T>(ms.skip(i as int)),
                ),
                output@ == old(output)@ + output@.subrange(old(output)@.len() as int, output@.len() as int),
            decreases len - i,
        {
            let ghost w = output@.subrange(old(output)@.len() as int, output@.len() as int);
            let ghost before = output@;
            assert(ms.skip(i as int).drop_first() =~= ms.skip(i + 1));
            let res = <T as ToBytes<E, ()>>::to_bytes(&self[i], output);
            proof {
                let w2 = output@.subrange(old(output)@.len() as int, output@.len() as int);
                assert(output@ =~= old(output)@ + w2);
                match T::spec_to_bytes(ms[i as int]) {
                    Ok(b) => {
                        assert(w2 =~= w + b);
                        match write_elems::<E, T>(ms.skip(i + 1)) {
                            Ok(y) => { assert(w + (b + y) =~= w2 + y); },
                            Err((y, e)) => { assert(w + (b + y) =~= w2 + y); },
                        }
                    },
                    Err((b, e)) => {
                        assert(w2 =~= w + b);
                    },
                }
            }
            match res {
                Ok(()) => {},
                Err(e) => return Err(e),
            }
            i = i + 1;
        }
        proof {
            let w = output@.subrange(old(output)@.len() as int, output@.len() as int);
            assert(w + Seq::<u8>::empty() =~= w);
        }
        Ok(())
    }
}

impl<E: ByteOrder, L: LengthCount + Codec<E, ()>, T: Codec<E, ()>> Codec<E, L> for Vec<T> {
    proof fn lemma_write_read(ms: Seq<T::Spec>, rest: Seq<u8>) {
        if ms.len() <= L::spec_max() {
            let p = L::spec_prefix(ms.len());
            if let Ok(pb) = <L as ToBytes<E, ()>>::spec_to_bytes(p) {
                if let Ok(eb) = write_elems::<E, T>(ms) {
                    L::lemma_count(ms.len());
                    <L as Codec<E, ()>>::lemma_write_read(p, eb + rest);
                    lemma_elems_write_read::<E, T>(ms, rest);
                    assert(pb + eb + rest =~= pb + (eb + rest));
                }
            }
        }
    }
}

impl<E: ByteOrder, L: LengthCount + Canonical<E, ()>, T: Canonical<E, ()>> Canonical<E, L> for Vec<
    T,
> {
    proof fn lemma_read_write(s: Seq<u8>) {
        if let Ok((c, s0)) = <L as FromBytes<E, ()>>::spec_from_bytes(s) {
            let n = L::spec_count(c);
            if let Ok((ms, rest)) = read_elems::<E, T>(s0, n) {
                <L as Canonical<E, ()>>::lemma_read_write(s);
                L::lemma_prefix(c);
                lemma_read_elems_len::<E, T>(s0, n);
                lemma_elems_read_write::<E, T>(s0, n);
                let pb = <L as ToBytes<E, ()>>::spec_to_bytes(c)->Ok_0;
                let eb = write_elems::<E, T>(ms)->Ok_0;
                assert(s =~= (pb + eb) + rest);
            }
        }
    }
}

} // verus!
