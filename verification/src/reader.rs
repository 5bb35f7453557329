//! The reading end: one call, one frame; or all frames up to a limit.

use crate::error::FrameError;
use crate::prefix::decode_len;
use crate::stream::lemma_tail_of_tail;
use crate::stream::spec_tail_of;
use crate::stream::ByteSource;
use crate::wire::lemma_cut_frame_unreadable;
use crate::wire::spec_after_first;
use crate::wire::spec_after_frames;
use crate::wire::spec_declared_len;
use crate::wire::spec_first_payload;
use crate::wire::spec_frames;
use crate::wire::spec_len_prefix;
use crate::wire::spec_limit_less;
use crate::wire::spec_max_payload;
use crate::wire::spec_readable;
use crate::wire::PREFIX_LEN;
use vstd::prelude::*;

verus! {

/// The payloads that a list of buffers holds, in order.
pub open spec fn spec_payloads(items: Seq<Vec<u8>>) -> Seq<Seq<u8>> {
    items.map_values(|item: Vec<u8>| item@)
}

/// The limit of a bulk read as a number of items; `None` is no limit.
pub open spec fn spec_item_limit(size_limit: Option<usize>) -> Option<nat> {
    match size_limit {
        Some(most) => Some(most as nat),
        None => None,
    }
}

/// What a failed read tells: for each error that a read can end in, what
/// the source held before the read and what it holds after it.
pub open spec fn spec_read_failure<E>(error: FrameError<E>, before: Seq<u8>, after: Seq<u8>) -> bool {
    match error {
        FrameError::ReadLen(_) => {
            &&& before.len() < PREFIX_LEN
            &&& spec_tail_of(after, before)
        },
        FrameError::TooLong(declared) => {
            &&& before.len() >= PREFIX_LEN
            &&& declared == spec_declared_len(before)
            &&& declared > spec_max_payload()
            &&& after == before.skip(PREFIX_LEN as int)
        },
        FrameError::ReadPayload(_) => {
            &&& before.len() >= PREFIX_LEN
            &&& spec_declared_len(before) <= spec_max_payload()
            &&& before.len() < PREFIX_LEN + spec_declared_len(before)
            &&& spec_tail_of(after, before.skip(PREFIX_LEN as int))
        },
        _ => false,
    }
}

/// Every failure of a read has its one cause in what the source held: too
/// few bytes for a prefix, a declared length beyond the limit, or too few
/// bytes for the declared payload. Those of the stream are the first and the
/// last.
pub proof fn lemma_read_failure_by_cause<E>(error: FrameError<E>, before: Seq<u8>, after: Seq<u8>)
    requires
        spec_read_failure(error, before, after),
    ensures
        !spec_readable(before),
        error is ReadLen <==> before.len() < PREFIX_LEN,
        error is TooLong <==> before.len() >= PREFIX_LEN && spec_declared_len(before)
            > spec_max_payload(),
        error is ReadPayload <==> before.len() >= PREFIX_LEN && spec_declared_len(before)
            <= spec_max_payload(),
        error.spec_is_io() <==> error is ReadLen || error is ReadPayload,
{
}

/// A single read of a frame whose payload was cut short fails, and fails as
/// a failure of the stream at the payload: no part of the payload is returned.
pub proof fn lemma_cut_frame_fails_at_payload<E>(
    payload: Seq<u8>,
    kept: nat,
    error: FrameError<E>,
    after: Seq<u8>,
)
    requires
        payload.len() <= spec_max_payload(),
        kept < payload.len(),
        spec_read_failure(
            error,
            spec_len_prefix(payload.len()) + payload.take(kept as int),
            after,
        ),
    ensures
        error is ReadPayload,
        error.spec_is_io(),
{
    lemma_cut_frame_unreadable(payload, kept, None);
}

/// Reads records from a byte source, each from one frame.
pub struct DeserializeAnyhow<R> {
    payload_buf: Vec<u8>,
    len_buf: Vec<u8>,
    reader: R,
}

impl<R: ByteSource> DeserializeAnyhow<R> {
    /// The source that the frames come from.
    pub closed spec fn source(&self) -> R {
        self.reader
    }

    /// Whether the source states what it has yet to deliver. The contracts of
    /// this type speak only of such a source.
    pub open spec fn modelled(&self) -> bool {
        self.source().modelled()
    }

    /// The bytes the source has yet to deliver.
    pub open spec fn remaining(&self) -> Seq<u8> {
        self.source().remaining()
    }

    /// Wraps `reader`. Nothing is read yet.
    pub fn new(reader: R) -> (made: Self)
        ensures
            made.source() == reader,
    {
        DeserializeAnyhow { payload_buf: Vec::new(), len_buf: vec![0u8; 8], reader }
    }

    /// Reads one frame and returns its payload, the encoded bytes of one
    /// record. The slice is lent from the reader's own buffer.
    ///
    /// It succeeds exactly when the source begins with a whole frame whose
    /// declared length is within the limit. The payload is then the bytes of
    /// that frame and of nothing else, whatever an earlier call left in the
    /// buffer, and the source stands right behind the frame. Otherwise the
    /// error tells which step failed, and no payload is returned.
    pub fn deserialize(&mut self) -> (r: Result<&[u8], FrameError<R::Error>>)
        ensures
            old(self).modelled() ==> final(self).modelled(),
            old(self).modelled() ==> (r is Ok <==> spec_readable(old(self).remaining())),
            old(self).modelled() ==> (r matches Ok(payload) ==> {
                &&& payload@ == spec_first_payload(old(self).remaining())
                &&& final(self).remaining() == spec_after_first(old(self).remaining())
            }),
            old(self).modelled() ==> (r matches Err(e) ==> spec_read_failure(
                e,
                old(self).remaining(),
                final(self).remaining(),
            )),
    {
        match self.read_frame() {
            Ok(()) => Ok(self.payload_buf.as_slice()),
            Err(e) => Err(e),
        }
    }

    /// The payload that the last successful read left in the buffer.
    closed spec fn held(&self) -> Seq<u8> {
        self.payload_buf@
    }

    /// Reads one frame into the payload buffer.
    fn read_frame(&mut self) -> (r: Result<(), FrameError<R::Error>>)
        ensures
            old(self).modelled() ==> final(self).modelled(),
            old(self).modelled() ==> (r is Ok <==> spec_readable(old(self).remaining())),
            old(self).modelled() && r is Ok ==> {
                &&& final(self).held() == spec_first_payload(old(self).remaining())
                &&& final(self).remaining() == spec_after_first(old(self).remaining())
            },
            old(self).modelled() ==> (r matches Err(e) ==> spec_read_failure(
                e,
                old(self).remaining(),
                final(self).remaining(),
            )),
    {
        let ghost modelled = self.modelled();
        let ghost stream = self.remaining();
        self.len_buf.resize(PREFIX_LEN, 0u8);
        match self.reader.read_exact(&mut self.len_buf) {
            Ok(()) => {},
            Err(e) => {
                return Err(FrameError::ReadLen(e));
            },
        }
        let declared = match decode_len(self.len_buf.as_slice()) {
            Ok(declared) => declared,
            Err(e) => {
                return Err(FrameError::DecodeLen(e));
            },
        };
        proof {
            if modelled {
                assert(self.len_buf@.take(8) =~= stream.take(PREFIX_LEN as int));
            }
        }
        if declared > isize::MAX as u64 {
            return Err(FrameError::TooLong(declared));
        }
        let size = declared as usize;
        self.payload_buf.resize(size, 0u8);
        match self.reader.read_exact(&mut self.payload_buf) {
            Ok(()) => {
                proof {
                    if modelled {
                        assert(self.payload_buf@ =~= spec_first_payload(stream));
                        assert(self.remaining() =~= spec_after_first(stream));
                    }
                }
                Ok(())
            },
            Err(e) => Err(FrameError::ReadPayload(e)),
        }
    }

    /// Reads frames one after another and returns their payloads in order,
    /// until no whole acceptable frame follows or `size_limit` payloads are
    /// there, whichever comes first. A read that fails ends the list; what
    /// failed is not told.
    ///
    /// When the limit ends the list, no further read is made and the source
    /// stands right behind the last frame returned. When a failed read ends
    /// it, the source stands there or further on, as that read left it.
    pub fn create_vec(&mut self, size_limit: Option<usize>) -> (items: Vec<Vec<u8>>)
        ensures
            size_limit matches Some(most) ==> items@.len() <= most,
            old(self).modelled() ==> final(self).modelled(),
            old(self).modelled() ==> spec_payloads(items@) == spec_frames(
                old(self).remaining(),
                spec_item_limit(size_limit),
            ),
            old(self).modelled() ==> spec_tail_of(
                final(self).remaining(),
                spec_after_frames(old(self).remaining(), items@.len()),
            ),
            old(self).modelled() && size_limit == Some(items.len()) ==> final(self).remaining()
                == spec_after_frames(old(self).remaining(), items@.len()),
    {
        let ghost modelled = self.modelled();
        let ghost stream = self.remaining();
        let ghost limit = spec_item_limit(size_limit);
        let mut items: Vec<Vec<u8>> = Vec::new();
        assert(spec_payloads(items@) + spec_frames(stream, limit) =~= spec_frames(stream, limit));
        loop
            invariant_except_break
                modelled ==> self.remaining() == spec_after_frames(stream, items@.len()),
                modelled ==> spec_frames(stream, limit) == spec_payloads(items@) + spec_frames(
                    self.remaining(),
                    spec_limit_less(limit, items@.len()),
                ),
            invariant
                modelled ==> self.modelled(),
                limit == spec_item_limit(size_limit),
                size_limit matches Some(most) ==> items.len() <= most,
            ensures
                modelled ==> spec_payloads(items@) == spec_frames(stream, limit),
                modelled ==> spec_tail_of(
                    self.remaining(),
                    spec_after_frames(stream, items@.len()),
                ),
                modelled && size_limit == Some(items.len()) ==> self.remaining()
                    == spec_after_frames(stream, items@.len()),
            decreases usize::MAX - items.len(),
        {
            let ghost here = self.remaining();
            let ghost so_far = spec_payloads(items@);
            proof {
                assert(here.skip(0) =~= here);
                assert(so_far + Seq::<Seq<u8>>::empty() =~= so_far);
            }
            if let Some(most) = size_limit {
                if items.len() >= most {
                    break ;
                }
            }
            match self.read_frame() {
                Ok(()) => {
                    let item = self.payload_buf.clone();
                    assert(item@ =~= self.payload_buf@);
                    items.push(item);
                    proof {
                        if modelled {
                            assert(spec_payloads(items@) =~= so_far.push(spec_first_payload(here)));
                            assert(spec_payloads(items@) + spec_frames(
                                self.remaining(),
                                spec_limit_less(limit, items@.len()),
                            ) =~= so_far + spec_frames(
                                here,
                                spec_limit_less(limit, (items@.len() - 1) as nat),
                            ));
                        }
                    }
                },
                Err(_) => {
                    proof {
                        if modelled && here.len() >= PREFIX_LEN {
                            let behind_prefix = here.skip(PREFIX_LEN as int);
                            assert(behind_prefix.skip(0) =~= behind_prefix);
                            lemma_tail_of_tail(self.remaining(), behind_prefix, here);
                        }
                    }
                    break ;
                },
            }
        }
        items
    }

    /// Gives up the reader for the source it wrapped.
    pub fn into_inner(self) -> (reader: R)
        ensures
            reader == self.source(),
    {
        self.reader
    }
}

} // verus!
