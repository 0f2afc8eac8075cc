//! The byte I/O contract: a fallible byte sink ([`ByteWrite`]) and byte
//! source ([`ByteRead`]), together with the three in-memory reference
//! implementations every codec is exercised against: a growable buffer
//! (`Vec<u8>`), a cursor over a borrowed slice ([`ByteCursor`]), and a
//! counting sink ([`ByteCounter`]) that measures without storing.

use vstd::prelude::*;
use vstd::slice::{slice_subrange, slice_to_vec};

verus! {

/// Error returned by a byte source when a read asks for more bytes than the
/// source still holds.
#[derive(Debug, Clone, Copy, PartialEq, Eq, Structural)]
pub struct EndOfBufferError;

/// Error returned by the counting sink when the running byte count would
/// exceed `u64::MAX`.
#[derive(Debug, Clone, Copy, PartialEq, Eq, Structural)]
pub struct CounterOverflowError;

/// A sink that accepts bytes in order and can fail.
///
/// The model of a sink is the sequence of bytes written to it so far,
/// `spec_written()`. A sink whose `spec_infallible()` holds promises that
/// every write succeeds.
pub trait ByteWrite {
    type Err;

    /// All bytes accepted by this sink so far, in order.
    spec fn spec_written(&self) -> Seq<u8>;

    /// Whether this kind of sink accepts every write.
    spec fn spec_infallible() -> bool;

    /// Append one byte.
    fn write_byte(&mut self, data: u8) -> (r: Result<(), Self::Err>)
        ensures
            match r {
                Ok(()) => final(self).spec_written() == old(self).spec_written().push(data),
                Err(_) => final(self).spec_written() == old(self).spec_written(),
            },
            Self::spec_infallible() ==> r is Ok,
    ;

    /// Append a buffer of bytes; on failure some prefix of it may have been
    /// written. Provided as sequential single-byte writes; an implementation
    /// may override it with a bulk write.
    fn write_buf(&mut self, data: &[u8]) -> (r: Result<(), Self::Err>)
        ensures
            match r {
                Ok(()) => final(self).spec_written() == old(self).spec_written() + data@,
                Err(_) => old(self).spec_written().is_prefix_of(final(self).spec_written())
                    && final(self).spec_written().is_prefix_of(old(self).spec_written() + data@),
            },
            Self::spec_infallible() ==> r is Ok,
    {
        let mut i: usize = 0;
        while i < data.len()
            invariant
                i <= data@.len(),
                self.spec_written() == old(self).spec_written() + data@.take(i as int),
            decreases data@.len() - i,
        {
            match self.write_byte(data[i]) {
                Ok(()) => {},
                Err(e) => {
                    proof {
                        assert(old(self).spec_written().is_prefix_of(self.spec_written()));
                        assert((old(self).spec_written() + data@).take(
                            old(self).spec_written().len() + i,
                        ) =~= old(self).spec_written() + data@.take(i as int));
                    }
                    return Err(e);
                },
            }
            i = i + 1;
            proof {
                assert(self.spec_written() =~= old(self).spec_written() + data@.take(i as int));
            }
        }
        proof {
            assert(old(self).spec_written() + data@.take(data@.len() as int) =~= old(
                self,
            ).spec_written() + data@);
        }
        Ok(())
    }
}

/// A source that yields bytes in order and fails exactly when asked for more
/// bytes than it still holds.
///
/// The model of a source is the sequence of bytes it has not yet yielded,
/// `spec_remaining()`.
pub trait ByteRead {
    type Err;

    /// The bytes this source has not yet yielded, in order.
    spec fn spec_remaining(&self) -> Seq<u8>;

    /// Yield the next byte. Provided as a one-byte bulk read; an
    /// implementation may override it.
    fn read_byte(&mut self) -> (r: Result<u8, Self::Err>)
        ensures
            match r {
                Ok(b) => old(self).spec_remaining().len() >= 1
                    && b == old(self).spec_remaining()[0]
                    && final(self).spec_remaining() == old(self).spec_remaining().skip(1),
                Err(_) => old(self).spec_remaining().len() == 0
                    && final(self).spec_remaining() == old(self).spec_remaining(),
            },
    {
        match self.read_buf(1) {
            Ok(buf) => Ok(buf[0]),
            Err(e) => Err(e),
        }
    }

    /// Yield the next `len` bytes as an owned buffer.
    fn read_buf(&mut self, len: u64) -> (r: Result<Vec<u8>, Self::Err>)
        ensures
            match r {
                Ok(buf) => buf@.len() == len
                    && old(self).spec_remaining().len() >= len
                    && buf@ == old(self).spec_remaining().take(len as int)
                    && final(self).spec_remaining() == old(self).spec_remaining().skip(len as int),
                Err(_) => old(self).spec_remaining().len() < len
                    && final(self).spec_remaining() == old(self).spec_remaining(),
            },
    ;
}

/// The growable in-memory sink: appending to a `Vec<u8>` never fails.
impl ByteWrite for Vec<u8> {
    type Err = EndOfBufferError;

    open spec fn spec_written(&self) -> Seq<u8> {
        self@
    }

    open spec fn spec_infallible() -> bool {
        true
    }

    fn write_byte(&mut self, data: u8) -> (r: Result<(), Self::Err>) {
        self.push(data);
        Ok(())
    }

    fn write_buf(&mut self, data: &[u8]) -> (r: Result<(), Self::Err>) {
        let mut extra = slice_to_vec(data);
        self.append(&mut extra);
        Ok(())
    }
}

/// A source that walks an existing byte slice from front to back, failing
/// with [`EndOfBufferError`] when a read asks for more than remains.
pub struct ByteCursor<'a> {
    idx: usize,
    inner: &'a [u8],
}

impl<'a> ByteCursor<'a> {
    #[verifier::type_invariant]
    spec fn cursor_inv(self) -> bool {
        self.idx <= self.inner@.len()
    }

    /// A cursor positioned at the start of `inner`.
    pub fn new(inner: &'a [u8]) -> (r: Self)
        ensures
            r.spec_remaining() == inner@,
    {
        Self { idx: 0, inner }
    }

    /// Whether every byte of the underlying slice has been read.
    pub fn at_end(&self) -> (r: bool)
        ensures
            r <==> self.spec_remaining().len() == 0,
    {
        proof {
            use_type_invariant(self);
        }
        self.idx == self.inner.len()
    }
}

impl<'a> ByteRead for ByteCursor<'a> {
    type Err = EndOfBufferError;

    closed spec fn spec_remaining(&self) -> Seq<u8> {
        self.inner@.skip(self.idx as int)
    }

    fn read_byte(&mut self) -> (r: Result<u8, Self::Err>) {
        proof {
            use_type_invariant(&*self);
        }
        if self.idx < self.inner.len() {
            let b = self.inner[self.idx];
            self.idx = self.idx + 1;
            proof {
                assert(final(self).spec_remaining() =~= old(self).spec_remaining().skip(1));
            }
            Ok(b)
        } else {
            Err(EndOfBufferError)
        }
    }

    fn read_buf(&mut self, len: u64) -> (r: Result<Vec<u8>, Self::Err>) {
        proof {
            use_type_invariant(&*self);
        }
        let available = self.inner.len() - self.idx;
        if len > available as u64 {
            Err(EndOfBufferError)
        } else {
            let len_us = len as usize;
            let part = slice_subrange(self.inner, self.idx, self.idx + len_us);
            let buf = slice_to_vec(part);
            self.idx = self.idx + len_us;
            proof {
                assert(buf@ =~= old(self).spec_remaining().take(len as int));
                assert(final(self).spec_remaining() =~= old(self).spec_remaining().skip(len as int));
            }
            Ok(buf)
        }
    }
}

/// A sink that stores nothing and only counts the bytes written to it; the
/// bytes themselves are retained as a ghost sequence so the count can be
/// related to what a real sink would have received.
pub struct ByteCounter {
    count: u64,
    bytes: Ghost<Seq<u8>>,
}

impl ByteCounter {
    #[verifier::type_invariant]
    spec fn counter_inv(self) -> bool {
        self.count == self.bytes@.len()
    }

    /// A counter that has seen no bytes.
    pub fn new() -> (r: Self)
        ensures
            r.spec_written() == Seq::<u8>::empty(),
    {
        Self { count: 0, bytes: Ghost(Seq::empty()) }
    }

    /// How many bytes have been written to this counter.
    pub fn count(&self) -> (r: u64)
        ensures
            r == self.spec_written().len(),
    {
        proof {
            use_type_invariant(self);
        }
        self.count
    }
}

impl Default for ByteCounter {
    fn default() -> (r: Self)
        ensures
            r.spec_written() == Seq::<u8>::empty(),
    {
        ByteCounter::new()
    }
}

impl ByteWrite for ByteCounter {
    type Err = CounterOverflowError;

    closed spec fn spec_written(&self) -> Seq<u8> {
        self.bytes@
    }

    open spec fn spec_infallible() -> bool {
        false
    }

    /// A write fails only when the running count would pass `u64::MAX`.
    fn write_byte(&mut self, data: u8) -> (r: Result<(), Self::Err>)
        ensures
            old(self).spec_written().len() < u64::MAX ==> r is Ok,
    {
        proof {
            use_type_invariant(&*self);
        }
        if self.count == u64::MAX {
            Err(CounterOverflowError)
        } else {
            *self = ByteCounter {
                count: self.count + 1,
                bytes: Ghost(self.bytes@.push(data)),
            };
            Ok(())
        }
    }

    /// A write fails only when the running count would pass `u64::MAX`.
    fn write_buf(&mut self, data: &[u8]) -> (r: Result<(), Self::Err>)
        ensures
            old(self).spec_written().len() + data@.len() <= u64::MAX ==> r is Ok,
    {
        proof {
            use_type_invariant(&*self);
        }
        let len = data.len();
        if self.count > u64::MAX - len as u64 {
            Err(CounterOverflowError)
        } else {
            *self = ByteCounter {
                count: self.count + len as u64,
                bytes: Ghost(self.bytes@ + data@),
            };
            Ok(())
        }
    }
}

} // verus!
