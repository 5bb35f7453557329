//! The wire format as a mathematical model over byte sequences.

use vstd::bytes::spec_u64_from_le_bytes;
use vstd::bytes::spec_u64_to_le_bytes;
use vstd::prelude::*;

verus! {

/// Width of the length prefix in bytes.
pub const PREFIX_LEN: usize = 8;

/// The largest payload a reader accepts: what one buffer in memory can hold.
pub open spec fn spec_max_payload() -> nat {
    isize::MAX as nat
}

/// The length prefix that announces a payload of `n` bytes.
pub open spec fn spec_len_prefix(n: nat) -> Seq<u8>
    recommends
        n <= u64::MAX,
{
    spec_u64_to_le_bytes(n as u64)
}

/// One frame: the length prefix of the payload, then the payload.
pub open spec fn spec_frame(payload: Seq<u8>) -> Seq<u8>
    recommends
        payload.len() <= u64::MAX,
{
    spec_len_prefix(payload.len()) + payload
}

/// The payload length that the first eight bytes of `stream` declare.
pub open spec fn spec_declared_len(stream: Seq<u8>) -> nat
    recommends
        stream.len() >= PREFIX_LEN,
{
    spec_u64_from_le_bytes(stream.take(PREFIX_LEN as int)) as nat
}

/// Whether `stream` begins with a whole frame that a reader accepts: a full
/// prefix, a declared length within the limit, and that many bytes after it.
pub open spec fn spec_readable(stream: Seq<u8>) -> bool {
    &&& stream.len() >= PREFIX_LEN
    &&& spec_declared_len(stream) <= spec_max_payload()
    &&& stream.len() >= PREFIX_LEN + spec_declared_len(stream)
}

/// The payload of the frame at the front of `stream`.
pub open spec fn spec_first_payload(stream: Seq<u8>) -> Seq<u8>
    recommends
        spec_readable(stream),
{
    stream.subrange(PREFIX_LEN as int, PREFIX_LEN + spec_declared_len(stream))
}

/// What is left of `stream` behind its first frame.
pub open spec fn spec_after_first(stream: Seq<u8>) -> Seq<u8>
    recommends
        spec_readable(stream),
{
    stream.skip(PREFIX_LEN + spec_declared_len(stream))
}

/// The stream that holds the given payloads as consecutive frames.
pub open spec fn spec_stream(payloads: Seq<Seq<u8>>) -> Seq<u8>
    decreases payloads.len(),
{
    if payloads.len() == 0 {
        Seq::empty()
    } else {
        spec_frame(payloads.first()) + spec_stream(payloads.skip(1))
    }
}

/// Whether a bulk read that may yield at most `limit` items has any left to yield.
pub open spec fn spec_limit_open(limit: Option<nat>) -> bool {
    limit != Some(0nat)
}

/// The limit that remains after `yielded` items.
pub open spec fn spec_limit_less(limit: Option<nat>, yielded: nat) -> Option<nat> {
    match limit {
        Some(k) => Some((k - yielded) as nat),
        None => None,
    }
}

/// The payloads a bulk read yields from `stream`: the frames at its front, in
/// order, up to the first place where no whole acceptable frame follows, and
/// never more than `limit`.
pub open spec fn spec_frames(stream: Seq<u8>, limit: Option<nat>) -> Seq<Seq<u8>>
    decreases stream.len(),
{
    if spec_limit_open(limit) && spec_readable(stream) {
        seq![spec_first_payload(stream)] + spec_frames(
            spec_after_first(stream),
            spec_limit_less(limit, 1),
        )
    } else {
        Seq::empty()
    }
}

/// What is left of `stream` behind its first `count` frames.
pub open spec fn spec_after_frames(stream: Seq<u8>, count: nat) -> Seq<u8>
    decreases count,
{
    if count == 0 {
        stream
    } else {
        spec_after_first(spec_after_frames(stream, (count - 1) as nat))
    }
}

/// Whether every payload is short enough for a reader to accept.
pub open spec fn spec_all_fit(payloads: Seq<Seq<u8>>) -> bool {
    forall|i: int| 0 <= i < payloads.len() ==> (#[trigger] payloads[i]).len() <= spec_max_payload()
}

/// A length prefix is always eight bytes and declares the length it was made from.
pub proof fn lemma_len_prefix(n: nat)
    requires
        n <= u64::MAX,
    ensures
        spec_len_prefix(n).len() == PREFIX_LEN,
        spec_u64_from_le_bytes(spec_len_prefix(n)) == n,
{
    vstd::bytes::lemma_auto_spec_u64_to_from_le_bytes();
}

/// Reading back what was written: a stream that begins with the frame of
/// `payload` is readable, its first payload is `payload`, byte for byte, and
/// what follows the frame is untouched. This covers the empty payload.
pub proof fn lemma_frame_reads_back(payload: Seq<u8>, rest: Seq<u8>)
    requires
        payload.len() <= spec_max_payload(),
    ensures
        spec_declared_len(spec_frame(payload) + rest) == payload.len(),
        spec_readable(spec_frame(payload) + rest),
        spec_first_payload(spec_frame(payload) + rest) == payload,
        spec_after_first(spec_frame(payload) + rest) == rest,
{
    let n = payload.len();
    lemma_len_prefix(n);
    let stream = spec_frame(payload) + rest;
    assert(stream.take(PREFIX_LEN as int) =~= spec_len_prefix(n));
    assert(spec_first_payload(stream) =~= payload);
    assert(spec_after_first(stream) =~= rest);
}

/// Writing one more record puts its frame behind the frames already there.
pub proof fn lemma_stream_push(payloads: Seq<Seq<u8>>, payload: Seq<u8>)
    ensures
        spec_stream(payloads.push(payload)) == spec_stream(payloads) + spec_frame(payload),
    decreases payloads.len(),
{
    let longer = payloads.push(payload);
    if payloads.len() == 0 {
        assert(longer.skip(1) =~= Seq::<Seq<u8>>::empty());
        assert(spec_stream(longer.skip(1)) =~= Seq::<u8>::empty());
        assert(spec_stream(longer) =~= spec_frame(payload));
        assert(spec_stream(payloads) + spec_frame(payload) =~= spec_frame(payload));
    } else {
        lemma_stream_push(payloads.skip(1), payload);
        assert(longer.skip(1) =~= payloads.skip(1).push(payload));
        assert(spec_stream(longer) =~= spec_stream(payloads) + spec_frame(payload));
    }
}

/// Frame boundaries hold: behind the first `count` of the frames written
/// stands exactly the stream of the frames written after them, and whatever
/// followed the last.
pub proof fn lemma_after_frames_of_stream(payloads: Seq<Seq<u8>>, rest: Seq<u8>, count: nat)
    requires
        spec_all_fit(payloads),
        count <= payloads.len(),
    ensures
        spec_after_frames(spec_stream(payloads) + rest, count) == spec_stream(
            payloads.skip(count as int),
        ) + rest,
    decreases count,
{
    if count == 0 {
        assert(payloads.skip(0) =~= payloads);
    } else {
        let before = (count - 1) as nat;
        lemma_after_frames_of_stream(payloads, rest, before);
        let from = payloads.skip(before as int);
        let behind = spec_stream(payloads.skip(count as int)) + rest;
        assert(from.skip(1) =~= payloads.skip(count as int));
        assert(from.first() == payloads[before as int]);
        assert(spec_stream(from) + rest =~= spec_frame(from.first()) + behind);
        lemma_frame_reads_back(from.first(), behind);
    }
}

/// Reading as often as was written yields what was written, in the order it
/// was written: the read number `index` finds a whole frame, and its payload
/// is the record number `index`.
pub proof fn lemma_reads_in_order(payloads: Seq<Seq<u8>>, rest: Seq<u8>, index: nat)
    requires
        spec_all_fit(payloads),
        index < payloads.len(),
    ensures
        spec_readable(spec_after_frames(spec_stream(payloads) + rest, index)),
        spec_first_payload(spec_after_frames(spec_stream(payloads) + rest, index))
            == payloads[index as int],
{
    lemma_after_frames_of_stream(payloads, rest, index);
    let from = payloads.skip(index as int);
    let behind = spec_stream(from.skip(1)) + rest;
    assert(from.first() == payloads[index as int]);
    assert(spec_stream(from) + rest =~= spec_frame(from.first()) + behind);
    lemma_frame_reads_back(from.first(), behind);
}

/// A bulk read with a limit that the stream can meet yields exactly the first
/// `limit` records and leaves the stream right behind the last of them.
pub proof fn lemma_bulk_read_within_limit(payloads: Seq<Seq<u8>>, rest: Seq<u8>, limit: nat)
    requires
        spec_all_fit(payloads),
        limit <= payloads.len(),
    ensures
        spec_frames(spec_stream(payloads) + rest, Some(limit)) == payloads.take(limit as int),
        spec_after_frames(spec_stream(payloads) + rest, limit) == spec_stream(
            payloads.skip(limit as int),
        ) + rest,
    decreases limit,
{
    lemma_after_frames_of_stream(payloads, rest, limit);
    let stream = spec_stream(payloads) + rest;
    if limit == 0 {
        assert(payloads.take(0) =~= Seq::<Seq<u8>>::empty());
    } else {
        let later = payloads.skip(1);
        let behind = spec_stream(later) + rest;
        assert(stream =~= spec_frame(payloads.first()) + behind);
        lemma_frame_reads_back(payloads.first(), behind);
        lemma_bulk_read_within_limit(later, rest, (limit - 1) as nat);
        assert(payloads.take(limit as int) =~= seq![payloads.first()] + later.take(limit - 1));
    }
}

/// A bulk read that is not stopped by its limit yields every record written
/// and stops where no whole frame follows: at the end of the stream, or at a
/// frame that was cut short, for which it yields nothing.
pub proof fn lemma_bulk_read_to_end(payloads: Seq<Seq<u8>>, rest: Seq<u8>, limit: Option<nat>)
    requires
        spec_all_fit(payloads),
        !spec_readable(rest),
        limit matches Some(most) ==> most >= payloads.len(),
    ensures
        spec_frames(spec_stream(payloads) + rest, limit) == payloads,
    decreases payloads.len(),
{
    let stream = spec_stream(payloads) + rest;
    if payloads.len() == 0 {
        assert(stream =~= rest);
        assert(payloads =~= Seq::<Seq<u8>>::empty());
    } else {
        let later = payloads.skip(1);
        let behind = spec_stream(later) + rest;
        assert(stream =~= spec_frame(payloads.first()) + behind);
        lemma_frame_reads_back(payloads.first(), behind);
        lemma_bulk_read_to_end(later, rest, spec_limit_less(limit, 1));
        assert(payloads =~= seq![payloads.first()] + later);
    }
}

/// A bulk read of an empty stream yields nothing, whatever the limit.
pub proof fn lemma_no_frames_in_empty_stream(limit: Option<nat>)
    ensures
        spec_frames(Seq::<u8>::empty(), limit) == Seq::<Seq<u8>>::empty(),
{
}

/// A frame whose payload was cut short is no frame: the prefix is there and
/// declares the full length, and the bytes behind it are too few. A single
/// read of it cannot succeed and a bulk read yields nothing for it.
pub proof fn lemma_cut_frame_unreadable(payload: Seq<u8>, kept: nat, limit: Option<nat>)
    requires
        payload.len() <= u64::MAX,
        kept < payload.len(),
    ensures
        (spec_len_prefix(payload.len()) + payload.take(kept as int)).len() >= PREFIX_LEN,
        spec_declared_len(spec_len_prefix(payload.len()) + payload.take(kept as int))
            == payload.len(),
        !spec_readable(spec_len_prefix(payload.len()) + payload.take(kept as int)),
        spec_frames(spec_len_prefix(payload.len()) + payload.take(kept as int), limit)
            == Seq::<Seq<u8>>::empty(),
{
    lemma_len_prefix(payload.len());
    let stream = spec_len_prefix(payload.len()) + payload.take(kept as int);
    assert(stream.take(PREFIX_LEN as int) =~= spec_len_prefix(payload.len()));
}

} // verus!
