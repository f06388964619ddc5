use vstd::prelude::*;
use crate::error::{IoError, ReadError, ReadResult};

verus! {

/// An input of bytes read from the front: the bytes and how many of them
/// have been consumed.
#[derive(Debug)]
pub struct ByteReader {
    data: Vec<u8>,
    pos: usize,
}

impl ByteReader {
    #[verifier::type_invariant]
    spec fn inv(&self) -> bool {
        self.pos <= self.data@.len()
    }

    /// All bytes of the input, the consumed ones included.
    pub closed spec fn bytes(&self) -> Seq<u8> {
        self.data@
    }

    /// The bytes not consumed yet.
    pub closed spec fn remaining(&self) -> Seq<u8> {
        self.data@.subrange(self.pos as int, self.data@.len() as int)
    }

    /// How many bytes have been consumed.
    pub closed spec fn spec_position(&self) -> nat {
        self.pos as nat
    }

    /// A reader at the start of `data`.
    pub fn new(data: Vec<u8>) -> (r: Self)
        ensures
            r.bytes() == data@,
            r.spec_position() == 0,
            r.remaining() == data@,
    {
        let r = ByteReader { data, pos: 0 };
        assert(r.remaining() =~= data@);
        r
    }

    /// How many bytes have been consumed.
    pub fn position(&self) -> (p: usize)
        ensures
            p == self.spec_position(),
            p <= self.bytes().len(),
            self.remaining() == self.bytes().skip(p as int),
    {
        proof {
            use_type_invariant(self);
            assert(self.remaining() =~= self.bytes().skip(self.pos as int));
        }
        self.pos
    }

    /// The whole input back.
    pub fn into_inner(self) -> (v: Vec<u8>)
        ensures
            v@ == self.bytes(),
    {
        self.data
    }

    /// Consumes the next `n` bytes and returns them; when fewer are left,
    /// consumes nothing and fails with an unexpected end of input.
    pub fn take(&mut self, n: usize) -> (r: ReadResult<Vec<u8>>)
        ensures
            final(self).bytes() == old(self).bytes(),
            old(self).remaining().len() < n ==> {
                &&& r == Err::<Vec<u8>, ReadError>(ReadError::IO(IoError::UnexpectedEof))
                &&& final(self).remaining() == old(self).remaining()
                &&& final(self).spec_position() == old(self).spec_position()
            },
            n <= old(self).remaining().len() ==> {
                &&& r matches Ok(b) && b@ == old(self).remaining().take(n as int)
                &&& final(self).remaining() == old(self).remaining().skip(n as int)
                &&& final(self).spec_position() == old(self).spec_position() + n
            },
    {
        proof {
            use_type_invariant(&*self);
        }
        if self.data.len() - self.pos < n {
            return Err(ReadError::IO(IoError::UnexpectedEof));
        }
        let start = self.pos;
        let len = self.data.len();
        let mut out: Vec<u8> = Vec::with_capacity(n);
        let mut i: usize = 0;
        while i < n
            invariant
                start == self.pos,
                len == self.data@.len(),
                start + n <= len,
                0 <= i <= n,
                out@ == self.data@.subrange(start as int, start + i),
            decreases n - i,
        {
            out.push(self.data[start + i]);
            i = i + 1;
            assert(out@ =~= self.data@.subrange(start as int, start + i));
        }
        let ghost old_rest = self.remaining();
        self.pos = self.pos + n;
        assert(out@ =~= old_rest.take(n as int));
        assert(self.remaining() =~= old_rest.skip(n as int));
        Ok(out)
    }
}

} // verus!
