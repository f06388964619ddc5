use vstd::prelude::*;
use crate::error::{IoError, ReadError, ReadResult, WriteError, WriteResult};
use crate::endian::ByteOrder;
use crate::reader::ByteReader;

verus! {

/// What a read yields in the model: the value read and the bytes after it,
/// or the error and the bytes left when it came.
pub type ReadOutcome<M> = Result<(M, Seq<u8>), (ReadError, Seq<u8>)>;

/// What a write yields in the model: all bytes of the value, or the bytes
/// written before the error and the error.
pub type WriteOutcome = Result<Seq<u8>, (Seq<u8>, WriteError)>;

/// The end-of-input failure of a reader of bytes.
pub open spec fn eof() -> ReadError {
    ReadError::IO(IoError::UnexpectedEof)
}

/// `r`, with the reader left at `after`, is what the model outcome `o` says.
pub open spec fn read_agrees<T: Model>(o: ReadOutcome<T::Spec>, r: ReadResult<T>, after: Seq<u8>) -> bool {
    match o {
        Ok((m, rest)) => r matches Ok(v) && v.model() == m && after == rest,
        Err((e, rest)) => r == Err::<T, ReadError>(e) && after == rest,
    }
}

/// `r`, with the output gone from `before` to `after`, is what the model
/// outcome `o` says.
pub open spec fn write_agrees(o: WriteOutcome, r: WriteResult, before: Seq<u8>, after: Seq<u8>) -> bool {
    match o {
        Ok(b) => r is Ok && after == before + b,
        Err((b, e)) => r == Err::<(), WriteError>(e) && after == before + b,
    }
}

/// One write after another: the second happens only when the first succeeded.
pub open spec fn then_write(a: WriteOutcome, b: WriteOutcome) -> WriteOutcome {
    match a {
        Err(x) => Err(x),
        Ok(x) => match b {
            Ok(y) => Ok(x + y),
            Err((y, e)) => Err((x + y, e)),
        },
    }
}

/// One read after another: `next`, given what the first read gave and the
/// bytes after it, happens only when the first read succeeded.
pub open spec fn read_then<A, B>(
    first: ReadOutcome<A>,
    next: spec_fn(A, Seq<u8>) -> ReadOutcome<B>,
) -> ReadOutcome<B> {
    match first {
        Err(x) => Err(x),
        Ok((a, rest)) => next(a, rest),
    }
}

/// A read of a constant that the format puts in: it fails, once read, when
/// it is not `value`.
pub open spec fn expect<M>(read: ReadOutcome<M>, value: M) -> ReadOutcome<()> {
    match read {
        Err(x) => Err(x),
        Ok((v, rest)) => if v == value {
            Ok(((), rest))
        } else {
            Err((ReadError::InvalidExpectation, rest))
        },
    }
}

/// A plain model of a value, over which the formats are stated.
pub trait Model {
    type Spec;

    spec fn model(&self) -> Self::Spec;
}

/// A value that can be read in byte order `E`, with length prefixes of type `L`.
pub trait FromBytes<E: ByteOrder, L>: Model + Sized {
    /// The format: what reading from the front of `s` gives.
    spec fn spec_from_bytes(s: Seq<u8>) -> ReadOutcome<Self::Spec>;

    /// Reading does not look past the bytes it consumes: a read that succeeds
    /// on `s`, or fails for another reason than running out of input,
    /// succeeds or fails in the same way on `s` followed by `t`.
    proof fn lemma_read_extends(s: Seq<u8>, t: Seq<u8>)
        ensures
            Self::spec_from_bytes(s) matches Ok((m, rest)) ==> Self::spec_from_bytes(s + t) == Ok::<
                (Self::Spec, Seq<u8>),
                (ReadError, Seq<u8>),
            >((m, rest + t)),
            Self::spec_from_bytes(s) matches Err((e, rest)) ==> (e != eof()
                ==> Self::spec_from_bytes(s + t) == Err::<(Self::Spec, Seq<u8>), (ReadError, Seq<u8>)>(
                (e, rest + t),
            )),
    ;

    fn from_bytes(input: &mut ByteReader) -> (r: ReadResult<Self>)
        ensures
            final(input).bytes() == old(input).bytes(),
            read_agrees::<Self>(Self::spec_from_bytes(old(input).remaining()), r, final(input).remaining()),
    ;
}

/// A value that can be written in byte order `E`, with length prefixes of type `L`.
pub trait ToBytes<E: ByteOrder, L>: Model {
    /// The format: the bytes that writing a value with model `m` appends.
    spec fn spec_to_bytes(m: Self::Spec) -> WriteOutcome;

    fn to_bytes(&self, output: &mut Vec<u8>) -> (r: WriteResult)
        ensures
            write_agrees(Self::spec_to_bytes(self.model()), r, old(output)@, final(output)@),
    ;
}

/// Formats whose reading gives back what writing wrote.
pub trait Codec<E: ByteOrder, L>: FromBytes<E, L> + ToBytes<E, L> {
    /// Reading the bytes of a successful write, whatever follows them, gives
    /// the value back and stops right after them.
    proof fn lemma_write_read(m: Self::Spec, rest: Seq<u8>)
        ensures
            Self::spec_to_bytes(m) matches Ok(b) ==> Self::spec_from_bytes(b + rest) == Ok::<
                (Self::Spec, Seq<u8>),
                (ReadError, Seq<u8>),
            >((m, rest)),
    ;
}

/// Formats in which every value has one encoding: writing what was read
/// gives back the bytes that were read.
pub trait Canonical<E: ByteOrder, L>: Codec<E, L> {
    proof fn lemma_read_write(s: Seq<u8>)
        ensures
            Self::spec_from_bytes(s) matches Ok((m, rest)) ==> (Self::spec_to_bytes(m) matches Ok(
                b,
            ) && s == b + rest),
    ;
}

/// Appends the bytes `b` to `output`.
pub(crate) fn push_bytes(output: &mut Vec<u8>, b: &[u8])
    ensures
        final(output)@ == old(output)@ + b@,
{
    let mut i: usize = 0;
    while i < b.len()
        invariant
            0 <= i <= b@.len(),
            output@ == old(output)@ + b@.take(i as int),
        decreases b@.len() - i,
    {
        output.push(b[i]);
        i = i + 1;
        assert(output@ =~= old(output)@ + b@.take(i as int));
    }
    assert(b@.take(b@.len() as int) =~= b@);
}

/// Writing `a` and then what `o` says, one after the other, is what
/// `then_write` says.
pub proof fn lemma_write_then(
    a: Seq<u8>,
    o: WriteOutcome,
    r: WriteResult,
    before: Seq<u8>,
    mid: Seq<u8>,
    after: Seq<u8>,
)
    requires
        mid == before + a,
        write_agrees(o, r, mid, after),
    ensures
        write_agrees(then_write(Ok(a), o), r, before, after),
{
    match o {
        Ok(b) => {
            assert(before + a + b =~= before + (a + b));
        },
        Err((b, e)) => {
            assert(before + a + b =~= before + (a + b));
        },
    }
}

/// A write outcome with `w` written before it.
pub open spec fn prepend_write(w: Seq<u8>, o: WriteOutcome) -> WriteOutcome {
    match o {
        Ok(b) => Ok(w + b),
        Err((b, e)) => Err((w + b, e)),
    }
}

/// One write of a sequence of writes, not the last: `total` is what the
/// whole sequence gives, `done` what the writes before this one wrote, `o`
/// what this one gives and `rest` what the ones after it give.
pub proof fn lemma_write_step(
    total: WriteOutcome,
    done: Seq<u8>,
    o: WriteOutcome,
    rest: WriteOutcome,
    r: WriteResult,
    start: Seq<u8>,
    mid: Seq<u8>,
    after: Seq<u8>,
)
    requires
        total == prepend_write(done, then_write(o, rest)),
        mid == start + done,
        write_agrees(o, r, mid, after),
    ensures
        r is Ok ==> o is Ok && total == prepend_write(done + o->Ok_0, rest) && after == start + (
        done + o->Ok_0),
        r is Err ==> write_agrees(total, r, start, after),
{
    match o {
        Ok(b) => {
            assert(start + done + b =~= start + (done + b));
            match rest {
                Ok(y) => {
                    assert(done + (b + y) =~= done + b + y);
                },
                Err((y, e)) => {
                    assert(done + (b + y) =~= done + b + y);
                },
            }
        },
        Err((b, e)) => {
            assert(start + done + b =~= start + (done + b));
        },
    }
}

/// The last write of a sequence of writes.
pub proof fn lemma_write_last(
    total: WriteOutcome,
    done: Seq<u8>,
    o: WriteOutcome,
    r: WriteResult,
    start: Seq<u8>,
    mid: Seq<u8>,
    after: Seq<u8>,
)
    requires
        total == prepend_write(done, o),
        mid == start + done,
        write_agrees(o, r, mid, after),
    ensures
        write_agrees(total, r, start, after),
{
    match o {
        Ok(b) => {
            assert(start + done + b =~= start + (done + b));
        },
        Err((b, e)) => {
            assert(start + done + b =~= start + (done + b));
        },
    }
}

/// Nothing written before changes nothing.
pub proof fn lemma_prepend_nothing(o: WriteOutcome)
    ensures
        prepend_write(Seq::empty(), o) == o,
{
    match o {
        Ok(b) => {
            assert(Seq::<u8>::empty() + b =~= b);
        },
        Err((b, e)) => {
            assert(Seq::<u8>::empty() + b =~= b);
        },
    }
}

} // verus!
