use vstd::prelude::*;

verus! {

/// A forward-only source of bytes held in memory.
///
/// A read that fails part way through a transfer is indistinguishable, to
/// the scans of this crate, from the end of the stream; such a transfer is
/// modelled by the bytes that arrived before the failure.
pub struct ByteStream {
    data: Vec<u8>,
    pos: usize,
}

impl View for ByteStream {
    type V = Seq<u8>;

    /// The bytes not yet read.
    closed spec fn view(&self) -> Seq<u8> {
        self.data@.subrange(self.pos as int, self.data@.len() as int)
    }
}

impl ByteStream {
    #[verifier::type_invariant]
    spec fn inv(&self) -> bool {
        self.pos <= self.data@.len()
    }

    /// A stream that yields the bytes of `data` in order.
    pub fn new(data: Vec<u8>) -> (r: ByteStream)
        ensures
            r@ == data@,
    {
        let r = ByteStream { data, pos: 0 };
        assert(r@ =~= r.data@);
        r
    }

    /// Reads the next byte, or reports the end of the stream.
    pub fn next_byte(&mut self) -> (r: Option<u8>)
        ensures
            old(self)@.len() == 0 ==> r is None && final(self)@ == old(self)@,
            old(self)@.len() > 0 ==> r == Some(old(self)@[0]) && final(self)@ == old(self)@.drop_first(),
    {
        proof {
            use_type_invariant(&*self);
        }
        if self.pos < self.data.len() {
            let b = self.data[self.pos];
            self.pos = self.pos + 1;
            assert(self@ =~= old(self)@.drop_first());
            Some(b)
        } else {
            None
        }
    }

    /// The number of bytes not yet read.
    pub fn remaining(&self) -> (r: usize)
        ensures
            r == self@.len(),
    {
        proof {
            use_type_invariant(self);
        }
        self.data.len() - self.pos
    }
}

} // verus!
