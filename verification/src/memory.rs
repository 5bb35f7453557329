//! Streams that live in memory: a sink that fills up and a source that runs out.

use crate::stream::ByteSink;
use crate::stream::ByteSource;
use vstd::prelude::*;
use vstd::slice::slice_subrange;

verus! {

/// What a `MemorySink` reports when a write does not fit.
#[derive(Debug)]
pub struct SinkFull {
    /// How many bytes of the request the sink still took.
    pub taken: usize,
}

/// What a `MemorySource` reports when it has too few bytes left.
#[derive(Debug)]
pub struct EndOfInput {
    /// How many bytes were asked for.
    pub wanted: usize,
    /// How many bytes were left; zero at a clean end.
    pub left: usize,
}

/// A sink that keeps what it is given until its room is used up.
pub struct MemorySink {
    bytes: Vec<u8>,
    room: usize,
}

impl MemorySink {
    /// An empty sink with as much room as memory allows.
    pub fn new() -> (sink: Self)
        ensures
            sink.written() == Seq::<u8>::empty(),
            sink.room() == usize::MAX,
    {
        MemorySink { bytes: Vec::new(), room: usize::MAX }
    }

    /// An empty sink that takes `room` bytes and no more.
    pub fn with_room(room: usize) -> (sink: Self)
        ensures
            sink.written() == Seq::<u8>::empty(),
            sink.room() == room,
    {
        MemorySink { bytes: Vec::new(), room }
    }

    /// The bytes taken so far.
    pub fn as_slice(&self) -> (bytes: &[u8])
        ensures
            bytes@ == self.written(),
    {
        self.bytes.as_slice()
    }

    /// Gives up the sink for the bytes it took.
    pub fn into_bytes(self) -> (bytes: Vec<u8>)
        ensures
            bytes@ == self.written(),
    {
        self.bytes
    }
}

impl ByteSink for MemorySink {
    type Error = SinkFull;

    open spec fn modelled(&self) -> bool {
        true
    }

    closed spec fn written(&self) -> Seq<u8> {
        self.bytes@
    }

    closed spec fn room(&self) -> nat {
        self.room as nat
    }

    /// Reports how many bytes of a write that did not fit were still taken.
    fn write_all(&mut self, bytes: &[u8]) -> (r: Result<(), SinkFull>)
        ensures
            r matches Err(full) ==> full.taken == old(self).room(),
    {
        let room = self.room;
        if bytes.len() <= room {
            self.bytes.extend_from_slice(bytes);
            self.room = room - bytes.len();
            assert(self.bytes@ =~= old(self).bytes@ + bytes@);
            Ok(())
        } else {
            let head = slice_subrange(bytes, 0, room);
            self.bytes.extend_from_slice(head);
            self.room = 0;
            assert(self.bytes@ =~= old(self).bytes@ + bytes@.take(room as int));
            Err(SinkFull { taken: room })
        }
    }
}

/// A source that delivers the bytes it was made from, front to back.
pub struct MemorySource {
    bytes: Vec<u8>,
    pos: usize,
}

impl MemorySource {
    /// A source that will deliver `bytes`.
    pub fn new(bytes: Vec<u8>) -> (source: Self)
        ensures
            source.remaining() == bytes@,
    {
        MemorySource { bytes, pos: 0 }
    }

    /// How many bytes are still to come.
    pub fn remaining_len(&self) -> (n: usize)
        ensures
            n == self.remaining().len(),
    {
        if self.pos <= self.bytes.len() {
            self.bytes.len() - self.pos
        } else {
            0
        }
    }
}

impl ByteSource for MemorySource {
    type Error = EndOfInput;

    open spec fn modelled(&self) -> bool {
        true
    }

    closed spec fn remaining(&self) -> Seq<u8> {
        if self.pos <= self.bytes@.len() {
            self.bytes@.skip(self.pos as int)
        } else {
            Seq::empty()
        }
    }

    /// All or nothing: a read that cannot be filled takes no byte from the
    /// source and reports how many were asked for and how many were left.
    fn read_exact(&mut self, buf: &mut Vec<u8>) -> (r: Result<(), EndOfInput>)
        ensures
            r is Err ==> final(self).remaining() == old(self).remaining(),
            r matches Err(end) ==> end.wanted == old(buf)@.len(),
            r matches Err(end) ==> end.left == old(self).remaining().len(),
    {
        let wanted = buf.len();
        let left = self.remaining_len();
        if wanted > left {
            assert(self.remaining().skip(0) =~= self.remaining());
            return Err(EndOfInput { wanted, left });
        }
        if self.pos > self.bytes.len() {
            self.pos = self.bytes.len();
            assert(self.remaining() =~= old(self).remaining());
        }
        let start = self.pos;
        let mut i: usize = 0;
        while i < wanted
            invariant
                i <= wanted,
                wanted == buf@.len(),
                start + wanted <= self.bytes.len(),
                self.pos == start,
                self.bytes == old(self).bytes,
                forall|j: int| 0 <= j < i ==> buf@[j] == self.bytes@[start + j],
            decreases wanted - i,
        {
            buf.set(i, self.bytes[start + i]);
            i = i + 1;
        }
        assert(buf@ =~= old(self).remaining().take(wanted as int));
        self.pos = start + wanted;
        assert(self.remaining() =~= old(self).remaining().skip(wanted as int));
        Ok(())
    }
}

} // verus!
