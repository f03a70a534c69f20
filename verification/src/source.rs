//! Blocking byte sources. A source is modelled by the sequence of bytes it
//! will still deliver before it fails; reading yields those bytes in order
//! and fails exactly when none are left.

use vstd::prelude::*;

verus! {

/// Error of a [`VecSource`]: the backing bytes are exhausted.
#[derive(Debug, PartialEq, Eq, Structural)]
pub struct EndOfInput;

/// A blocking source of single bytes, such as a serial peripheral or a
/// control channel. `stream` is the model: the bytes the source will still
/// deliver, in order, before its first read error.
pub trait ByteSource: Sized {
    type Err;

    /// The bytes this source will still deliver before it fails.
    spec fn stream(&self) -> Seq<u8>;

    /// Block until one byte is available and return it; an error is fatal to
    /// the session that owns this source.
    fn read_byte(&mut self) -> (r: Result<u8, Self::Err>)
        ensures
            r is Ok <==> (*old(self)).stream().len() > 0,
            r matches Ok(b) ==> b == (*old(self)).stream()[0] && (*final(self)).stream() == (*old(
                self,
            )).stream().skip(1),
            r is Err ==> (*final(self)).stream() == (*old(self)).stream(),
    ;
}

impl<'a, S: ByteSource> ByteSource for &'a mut S {
    type Err = S::Err;

    open spec fn stream(&self) -> Seq<u8> {
        (**self).stream()
    }

    fn read_byte(&mut self) -> (r: Result<u8, Self::Err>) {
        (**self).read_byte()
    }
}

/// A byte source backed by a vector, yielding its elements front to back.
pub struct VecSource {
    data: Vec<u8>,
    pos: usize,
}

impl VecSource {
    pub fn new(data: Vec<u8>) -> (r: Self)
        ensures
            r.stream() == data@,
    {
        VecSource { data, pos: 0 }
    }
}

impl ByteSource for VecSource {
    type Err = EndOfInput;

    closed spec fn stream(&self) -> Seq<u8> {
        if self.pos <= self.data@.len() {
            self.data@.skip(self.pos as int)
        } else {
            Seq::empty()
        }
    }

    fn read_byte(&mut self) -> (r: Result<u8, Self::Err>) {
        let ghost pre = *self;
        if self.pos < self.data.len() {
            let b = self.data[self.pos];
            self.pos = self.pos + 1;
            proof {
                assert(self.data@.skip(self.pos as int) =~= pre.data@.skip(pre.pos as int).skip(
                    1,
                ));
            }
            Ok(b)
        } else {
            Err(EndOfInput)
        }
    }
}

} // verus!
