//! The byte sink capability.
//!
//! A direct writer turns bits into whole bytes and hands them to a byte
//! sink.  The sink is any type implementing `ByteSink`: it accepts bytes and
//! reports failure.  A failed call leaves the sink's accepted bytes as they
//! were, so a writer can state precisely which bytes reached the sink.
//! `VecSink` is the in-memory sink: it collects the bytes in a `Vec` and
//! never fails.

use vstd::prelude::*;

verus! {

/// Failure reported by a byte sink.
#[derive(Clone, Copy, Debug, PartialEq, Eq, Structural)]
pub struct SinkError;

/// Anything that accepts whole bytes in order.
pub trait ByteSink: Sized {
    /// The bytes the sink has accepted so far.
    spec fn bytes(&self) -> Seq<u8>;

    /// Whether this sink type always accepts: an infallible sink never
    /// returns an error, so writers over it owe success.
    spec fn infallible() -> bool;

    /// Accepts one byte.
    fn write_byte(&mut self, byte: u8) -> (r: Result<(), SinkError>)
        ensures
            r is Ok ==> final(self).bytes() == old(self).bytes().push(byte),
            r is Err ==> final(self).bytes() == old(self).bytes(),
            Self::infallible() ==> r is Ok,
    ;

    /// Accepts a run of bytes, all or none.
    fn write_all(&mut self, buf: &[u8]) -> (r: Result<(), SinkError>)
        ensures
            r is Ok ==> final(self).bytes() == old(self).bytes() + buf@,
            r is Err ==> final(self).bytes() == old(self).bytes(),
            Self::infallible() ==> r is Ok,
    ;
}

/// An in-memory byte sink: collects everything it is given and never fails.
pub struct VecSink {
    data: Vec<u8>,
}

impl VecSink {
    /// An empty sink.
    pub fn new() -> (s: VecSink)
        ensures
            s.bytes() == Seq::<u8>::empty(),
    {
        let s = VecSink { data: Vec::new() };
        proof {
            assert(s.data@ =~= Seq::<u8>::empty());
        }
        s
    }

    /// Hands the collected bytes back.
    pub fn into_vec(self) -> (v: Vec<u8>)
        ensures
            v@ == self.bytes(),
    {
        self.data
    }

    /// The bytes collected so far.
    pub fn as_slice(&self) -> (s: &[u8])
        ensures
            s@ == self.bytes(),
    {
        self.data.as_slice()
    }
}

/// An in-memory byte sink of fixed capacity: collects bytes until full,
/// then fails, leaving its contents unchanged.
pub struct BoundedSink {
    data: Vec<u8>,
    capacity: usize,
}

impl BoundedSink {
    /// How many bytes the sink accepts in all.
    pub closed spec fn spec_capacity(&self) -> nat {
        self.capacity as nat
    }

    /// An empty sink that accepts at most `capacity` bytes.
    pub fn new(capacity: usize) -> (s: BoundedSink)
        ensures
            s.bytes() == Seq::<u8>::empty(),
            s.spec_capacity() == capacity,
    {
        let s = BoundedSink { data: Vec::new(), capacity };
        proof {
            assert(s.data@ =~= Seq::<u8>::empty());
        }
        s
    }

    /// Hands the collected bytes back.
    pub fn into_vec(self) -> (v: Vec<u8>)
        ensures
            v@ == self.bytes(),
    {
        self.data
    }
}

impl ByteSink for BoundedSink {
    closed spec fn bytes(&self) -> Seq<u8> {
        self.data@
    }

    open spec fn infallible() -> bool {
        false
    }

    fn write_byte(&mut self, byte: u8) -> (r: Result<(), SinkError>)
        ensures
            (r is Ok) <==> old(self).bytes().len() < old(self).spec_capacity(),
            final(self).spec_capacity() == old(self).spec_capacity(),
    {
        if self.data.len() < self.capacity {
            self.data.push(byte);
            Ok(())
        } else {
            Err(SinkError)
        }
    }

    fn write_all(&mut self, buf: &[u8]) -> (r: Result<(), SinkError>)
        ensures
            (r is Ok) <==> old(self).bytes().len() + buf@.len() <= old(self).spec_capacity(),
            final(self).spec_capacity() == old(self).spec_capacity(),
    {
        if buf.len() <= self.capacity && self.data.len() <= self.capacity - buf.len() {
            self.data.extend_from_slice(buf);
            Ok(())
        } else {
            Err(SinkError)
        }
    }
}

impl ByteSink for VecSink {
    closed spec fn bytes(&self) -> Seq<u8> {
        self.data@
    }

    open spec fn infallible() -> bool {
        true
    }

    fn write_byte(&mut self, byte: u8) -> (r: Result<(), SinkError>) {
        self.data.push(byte);
        Ok(())
    }

    fn write_all(&mut self, buf: &[u8]) -> (r: Result<(), SinkError>) {
        self.data.extend_from_slice(buf);
        Ok(())
    }
}

} // verus!
