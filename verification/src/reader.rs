//! The byte window and the resynchronizing frame reader: a fixed-capacity
//! sliding window over a blocking byte source, refilled one byte at a time,
//! and the loop that slides it forward until a well-formed frame appears.

use vstd::prelude::*;

use crate::frame::{frame_fields, frame_well_formed, Error, PmsAQIData, FRAME_LEN};
use crate::source::ByteSource;

verus! {

/// The frame starting at offset `j` of `stream` is available and well formed.
pub open spec fn frame_ok_at(stream: Seq<u8>, j: int) -> bool {
    &&& 0 <= j
    &&& j + FRAME_LEN <= stream.len()
    &&& frame_well_formed(stream.subrange(j, j + FRAME_LEN))
}

/// Resynchronization: when a stream opens with `k` garbage bytes (no frame
/// starts inside them) followed by a well-formed frame, the record that a
/// successful read of the stream returns is exactly that frame's — reached
/// after `k` single-byte resynchronization steps, whatever `k >= 0` is. The
/// second premise is the shape `PmsAQIData::read` guarantees of its result.
pub proof fn lemma_resync_first_frame(stream: Seq<u8>, data: PmsAQIData, k: int)
    requires
        frame_ok_at(stream, k),
        forall|i: int| 0 <= i < k ==> !frame_ok_at(stream, i),
        exists|j: int|
            {
                &&& #[trigger] frame_ok_at(stream, j)
                &&& data == frame_fields(stream.subrange(j, j + FRAME_LEN))
                &&& forall|i: int| 0 <= i < j ==> !frame_ok_at(stream, i)
            },
    ensures
        data == frame_fields(stream.subrange(k, k + FRAME_LEN)),
{
    let j = choose|j: int|
        {
            &&& #[trigger] frame_ok_at(stream, j)
            &&& data == frame_fields(stream.subrange(j, j + FRAME_LEN))
            &&& forall|i: int| 0 <= i < j ==> !frame_ok_at(stream, i)
        };
    assert(!(j < k) && !(k < j));
}

/// A fixed-capacity window over the most recent `N` bytes of a byte source.
/// The window is empty at construction and exactly full after a fill; it
/// never grows past `N` bytes.
pub struct BufReader<S: ByteSource, const N: usize> {
    source: S,
    window: Vec<u8>,
}

impl<S: ByteSource, const N: usize> BufReader<S, N> {
    /// The bytes buffered in the window, oldest first.
    pub closed spec fn window(&self) -> Seq<u8> {
        self.window@
    }

    /// All bytes this reader can still deliver: the buffered window followed
    /// by what the source will still yield.
    pub closed spec fn remaining(&self) -> Seq<u8> {
        self.window@ + self.source.stream()
    }

    pub closed spec fn wf(&self) -> bool {
        self.window@.len() <= N
    }

    pub fn new(reader: S) -> (r: Self)
        ensures
            r.wf(),
            r.window() == Seq::<u8>::empty(),
            r.remaining() == reader.stream(),
    {
        let r = BufReader { source: reader, window: Vec::new() };
        proof {
            assert(r.remaining() =~= r.source.stream());
        }
        r
    }

    /// Block on the source, one byte at a time, until the window holds
    /// exactly `N` bytes. Fails exactly when fewer than `N` bytes are left
    /// in all; no byte is lost either way.
    #[verifier::loop_isolation(false)]
    pub fn fill(&mut self) -> (r: Result<(), S::Err>)
        requires
            old(self).wf(),
        ensures
            final(self).wf(),
            final(self).remaining() == old(self).remaining(),
            r is Ok <==> old(self).remaining().len() >= N,
            r is Ok ==> final(self).window() == old(self).remaining().take(N as int),
            r is Err ==> final(self).window() == old(self).remaining(),
    {
        let ghost pre = *self;
        while self.window.len() < N
            invariant
                self.window@.len() <= N,
                self.remaining() == pre.remaining(),
                self.window@ == pre.remaining().take(self.window@.len() as int),
            decreases N - self.window@.len(),
        {
            match self.source.read_byte() {
                Ok(b) => {
                    self.window.push(b);
                    proof {
                        assert(self.remaining() =~= pre.remaining());
                        assert(self.window@ =~= pre.remaining().take(
                            self.window@.len() as int,
                        ));
                    }
                },
                Err(e) => {
                    proof {
                        assert(self.window@ =~= self.remaining());
                    }
                    return Err(e);
                },
            }
        }
        proof {
            assert(self.window@ =~= pre.remaining().take(N as int));
        }
        Ok(())
    }

    /// Return the oldest byte, remove it from the window, and refill, so the
    /// window again holds the most recent `N` bytes. Fails exactly when
    /// fewer than `N + 1` bytes are left in all.
    pub fn read(&mut self) -> (r: Result<u8, S::Err>)
        requires
            old(self).wf(),
            N >= 1,
        ensures
            final(self).wf(),
            r is Ok <==> old(self).remaining().len() >= N + 1,
            r matches Ok(b) ==> b == old(self).remaining()[0] && final(self).remaining() == old(
                self,
            ).remaining().skip(1),
            r is Err && old(self).remaining().len() >= 1 ==> final(self).remaining() == old(
                self,
            ).remaining().skip(1),
            r is Err && old(self).remaining().len() == 0 ==> final(self).remaining() == old(
                self,
            ).remaining(),
    {
        let ghost pre = *self;
        if let Err(e) = self.fill() {
            if self.window.len() > 0 {
                let _discard = self.window.remove(0);
                proof {
                    assert(self.remaining() =~= pre.remaining().skip(1));
                }
            }
            return Err(e);
        }
        let ret = self.window.remove(0);
        proof {
            assert(self.remaining() =~= pre.remaining().skip(1));
        }
        if let Err(e) = self.fill() {
            return Err(e);
        }
        Ok(ret)
    }

    /// The current `N`-byte window, forcing a fill first; no byte is
    /// consumed. Fails exactly when fewer than `N` bytes are left in all.
    #[verifier::loop_isolation(false)]
    pub fn filled_buffer(&mut self) -> (r: Result<Vec<u8>, S::Err>)
        requires
            old(self).wf(),
        ensures
            final(self).wf(),
            final(self).remaining() == old(self).remaining(),
            r is Ok <==> old(self).remaining().len() >= N,
            r matches Ok(buf) ==> buf@ == old(self).remaining().take(N as int),
    {
        if let Err(e) = self.fill() {
            return Err(e);
        }
        let mut buf: Vec<u8> = Vec::new();
        let mut i: usize = 0;
        while i < self.window.len()
            invariant
                i <= self.window@.len(),
                buf@ == self.window@.take(i as int),
            decreases self.window@.len() - i,
        {
            buf.push(self.window[i]);
            proof {
                assert(buf@ =~= self.window@.take(i + 1));
            }
            i = i + 1;
        }
        proof {
            assert(buf@ =~= self.window@);
        }
        Ok(buf)
    }
}

impl PmsAQIData {
    /// Read the next sensor record from `rx`, resynchronizing byte by byte: a
    /// 32-byte window slides over the stream one byte at a time until it
    /// holds a well-formed frame, which is decoded and returned. On success
    /// the record comes from the first well-formed frame in the stream and
    /// every earlier offset held no frame (one resynchronization step per
    /// leading garbage byte); a read error is surfaced only when no offset of
    /// the stream holds a well-formed frame.
    #[verifier::loop_isolation(false)]
    pub fn read<S: ByteSource>(rx: S) -> (r: Result<PmsAQIData, Error<S::Err>>)
        ensures
            r matches Ok(data) ==> exists|j: int|
                {
                    &&& #[trigger] frame_ok_at(rx.stream(), j)
                    &&& data == frame_fields(rx.stream().subrange(j, j + FRAME_LEN))
                    &&& forall|i: int| 0 <= i < j ==> !frame_ok_at(rx.stream(), i)
                },
            r is Err ==> (r->Err_0 is ReadError) && forall|j: int|
                !frame_ok_at(rx.stream(), j),
    {
        let ghost stream0 = rx.stream();
        let mut reader: BufReader<S, FRAME_LEN> = BufReader::new(rx);
        let ghost mut offset: int = 0;

        loop
            invariant
                reader.wf(),
                0 <= offset,
                offset + reader.remaining().len() == stream0.len(),
                reader.remaining() == stream0.skip(offset),
                forall|i: int| 0 <= i < offset ==> !frame_ok_at(stream0, i),
            decreases stream0.len() - offset,
        {
            let raw_msg = match reader.filled_buffer() {
                Ok(buf) => buf,
                Err(e) => {
                    proof {
                        assert forall|j: int| !frame_ok_at(stream0, j) by {
                            if frame_ok_at(stream0, j) {
                                assert(j + FRAME_LEN <= stream0.len());
                                assert(j >= offset);
                                assert(stream0.len() - offset < FRAME_LEN);
                            }
                        }
                    }
                    return Err(Error::ReadError(e));
                },
            };
            proof {
                assert(raw_msg@ =~= stream0.subrange(offset, offset + FRAME_LEN));
            }

            match PmsAQIData::from_bytes(raw_msg.as_slice()) {
                Ok(data) => {
                    proof {
                        assert(frame_ok_at(stream0, offset));
                    }
                    return Ok(data);
                },
                Err(_) => {
                    match reader.read() {
                        Ok(_) => {},
                        Err(e) => {
                            proof {
                                assert(!frame_ok_at(stream0, offset));
                                assert forall|j: int| !frame_ok_at(stream0, j) by {
                                    if frame_ok_at(stream0, j) {
                                        assert(j + FRAME_LEN <= stream0.len());
                                        assert(stream0.len() - offset < FRAME_LEN + 1);
                                        assert(j <= offset);
                                    }
                                }
                            }
                            return Err(Error::ReadError(e));
                        },
                    }
                    proof {
                        offset = offset + 1;
                        assert(reader.remaining() =~= stream0.skip(offset));
                    }
                },
            }
        }
    }
}

} // verus!
