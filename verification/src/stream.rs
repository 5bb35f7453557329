//! The two ends of a byte stream, as the framing layer sees them.

use vstd::prelude::*;

verus! {

/// Whether `tail` is what is left of `whole` after some bytes, possibly none,
/// were taken off its front.
pub open spec fn spec_tail_of(tail: Seq<u8>, whole: Seq<u8>) -> bool {
    &&& tail.len() <= whole.len()
    &&& tail == whole.skip(whole.len() - tail.len())
}

/// Taking bytes off the front twice is taking bytes off the front: a tail of
/// a tail of `whole` is a tail of `whole`.
pub proof fn lemma_tail_of_tail(tail: Seq<u8>, middle: Seq<u8>, whole: Seq<u8>)
    requires
        spec_tail_of(tail, middle),
        spec_tail_of(middle, whole),
    ensures
        spec_tail_of(tail, whole),
{
    assert(tail =~= whole.skip(whole.len() - tail.len()));
}

/// A byte sink: somewhere bytes go, in order, all of a request or an error.
///
/// The contract below speaks of a sink only where the sink states what it has
/// taken. A type whose code is not verified cannot state it: it keeps
/// `modelled` false, is promised nothing and is believed nothing.
pub trait ByteSink {
    /// What a failed write reports.
    type Error;

    /// Whether `written` tells what this sink has taken.
    open spec fn modelled(&self) -> bool {
        false
    }

    /// Every byte the sink has taken so far, oldest first.
    open spec fn written(&self) -> Seq<u8> {
        Seq::empty()
    }

    /// How many more bytes the sink takes before it fails. A sink that
    /// breaks off is one whose room ends there.
    open spec fn room(&self) -> nat {
        0
    }

    /// Hands all of `bytes` to the sink. It succeeds exactly when the sink
    /// has room for all of them; it has then taken exactly `bytes`, behind
    /// what it held. On failure it has taken the first bytes of `bytes` as
    /// far as its room went, and takes no more.
    fn write_all(&mut self, bytes: &[u8]) -> (r: Result<(), Self::Error>)
        ensures
            old(self).modelled() ==> final(self).modelled(),
            old(self).modelled() ==> (r is Ok <==> bytes@.len() <= old(self).room()),
            old(self).modelled() && r is Ok ==> {
                &&& final(self).written() == old(self).written() + bytes@
                &&& final(self).room() == old(self).room() - bytes@.len()
            },
            old(self).modelled() && r is Err ==> {
                &&& final(self).written() == old(self).written() + bytes@.take(
                    old(self).room() as int,
                )
                &&& final(self).room() == 0
            },
    ;
}

/// A byte source: somewhere bytes come from, in order, exactly as many as
/// asked for or an error.
///
/// The contract below speaks of a source only where the source states what it
/// has yet to deliver. A type whose code is not verified cannot state it: it
/// keeps `modelled` false, is promised nothing and is believed nothing.
pub trait ByteSource {
    /// What a failed read reports.
    type Error;

    /// Whether `remaining` tells what this source has yet to deliver.
    open spec fn modelled(&self) -> bool {
        false
    }

    /// The bytes the source has yet to deliver, next one first. A source that
    /// breaks off is one whose bytes end there.
    open spec fn remaining(&self) -> Seq<u8> {
        Seq::empty()
    }

    /// Fills all of `buf` from the front of the source. It succeeds exactly
    /// when the source still has as many bytes as `buf` is long; `buf` then
    /// holds them and the source has moved past them. On failure the content
    /// of `buf` is unspecified and the source has moved past some of its
    /// bytes, possibly none. The length of `buf` never changes.
    fn read_exact(&mut self, buf: &mut Vec<u8>) -> (r: Result<(), Self::Error>)
        ensures
            old(self).modelled() ==> final(self).modelled(),
            old(self).modelled() ==> final(buf)@.len() == old(buf)@.len(),
            old(self).modelled() ==> (r is Ok <==> old(buf)@.len() <= old(self).remaining().len()),
            old(self).modelled() && r is Ok ==> {
                &&& final(buf)@ == old(self).remaining().take(old(buf)@.len() as int)
                &&& final(self).remaining() == old(self).remaining().skip(old(buf)@.len() as int)
            },
            old(self).modelled() && r is Err ==> spec_tail_of(
                final(self).remaining(),
                old(self).remaining(),
            ),
    ;
}

} // verus!
