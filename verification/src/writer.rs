//! The writing end: one call, one frame.

use crate::error::FrameError;
use crate::prefix::encode_len;
use crate::stream::ByteSink;
use crate::wire::lemma_len_prefix;
use crate::wire::spec_frame;
use crate::wire::PREFIX_LEN;
use vstd::prelude::*;

verus! {

/// Writes records to a byte sink, each as one frame.
pub struct SerializeAnyhow<W> {
    len_buf: Vec<u8>,
    writer: W,
}

impl<W> SerializeAnyhow<W> {
    /// The sink that the frames go to.
    pub closed spec fn sink(&self) -> W {
        self.writer
    }

    /// Wraps `writer`. Nothing is written yet.
    pub fn new(writer: W) -> (made: Self)
        ensures
            made.sink() == writer,
    {
        SerializeAnyhow { len_buf: Vec::with_capacity(PREFIX_LEN), writer }
    }

    /// Gives up the writer for the sink it wrapped.
    pub fn into_inner(self) -> (writer: W)
        ensures
            writer == self.sink(),
    {
        self.writer
    }
}

impl<W: ByteSink> SerializeAnyhow<W> {
    /// Whether the sink states what it has taken. The contracts of this type
    /// speak only of such a sink.
    pub open spec fn modelled(&self) -> bool {
        self.sink().modelled()
    }

    /// Every byte the sink has taken so far.
    pub open spec fn written(&self) -> Seq<u8> {
        self.sink().written()
    }

    /// How many more bytes the sink takes before it fails.
    pub open spec fn room(&self) -> nat {
        self.sink().room()
    }

    /// Writes `something`, the encoded bytes of one record, as one frame: the
    /// length prefix in full, then the payload in full.
    ///
    /// It succeeds exactly when the sink has room for the whole frame, and
    /// the sink has then taken exactly the frame. Otherwise the sink takes
    /// the frame as far as its room goes, and the error tells where that was:
    /// within the prefix or within the payload. A frame cut short is not
    /// taken back.
    pub fn serialize_something(&mut self, something: &[u8]) -> (r: Result<(), FrameError<W::Error>>)
        ensures
            old(self).modelled() ==> final(self).modelled(),
            old(self).modelled() ==> (r is Ok <==> PREFIX_LEN + something@.len() <= old(self).room()),
            old(self).modelled() ==> match r {
                Ok(()) => {
                    &&& final(self).written() == old(self).written() + spec_frame(something@)
                    &&& final(self).room() == old(self).room() - PREFIX_LEN - something@.len()
                },
                Err(FrameError::WriteLen(_)) => {
                    &&& old(self).room() < PREFIX_LEN
                    &&& final(self).written() == old(self).written() + spec_frame(
                        something@,
                    ).take(old(self).room() as int)
                    &&& final(self).room() == 0
                },
                Err(FrameError::WritePayload(_)) => {
                    &&& PREFIX_LEN <= old(self).room()
                    &&& final(self).written() == old(self).written() + spec_frame(
                        something@,
                    ).take(old(self).room() as int)
                    &&& final(self).room() == 0
                },
                Err(_) => false,
            },
    {
        let size = something.len() as u64;
        let ghost modelled = self.modelled();
        let ghost before = self.written();
        let ghost room = self.room();
        let ghost frame = spec_frame(something@);
        proof {
            lemma_len_prefix(something@.len());
        }
        self.len_buf.clear();
        match encode_len(&mut self.len_buf, size) {
            Ok(()) => {},
            Err(e) => {
                return Err(FrameError::EncodeLen(e));
            },
        }
        assert(self.len_buf@ =~= frame.take(PREFIX_LEN as int));
        match self.writer.write_all(self.len_buf.as_slice()) {
            Ok(()) => {},
            Err(e) => {
                proof {
                    if modelled {
                        assert(self.len_buf@.take(room as int) =~= frame.take(room as int));
                    }
                }
                return Err(FrameError::WriteLen(e));
            },
        }
        match self.writer.write_all(something) {
            Ok(()) => {
                proof {
                    if modelled {
                        assert(self.written() =~= before + frame);
                    }
                }
                Ok(())
            },
            Err(e) => {
                proof {
                    if modelled {
                        assert(self.written() =~= before + frame.take(room as int));
                    }
                }
                Err(FrameError::WritePayload(e))
            },
        }
    }
}

} // verus!
