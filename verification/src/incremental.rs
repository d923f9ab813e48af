//! A frame that arrives in pieces is decoded as if it had arrived whole.
use vstd::prelude::*;

use crate::connection;
use crate::connection::{spec_parse_frame, spec_read_frame, StepView};
use crate::frame::{Error, FrameView};
use crate::prefix::{lemma_check_incomplete, lemma_check_prefix, lemma_parse_prefix};
use crate::round_trip::{lemma_encode_len, lemma_round_trip};
use crate::two_pass::lemma_check_of_parsed;
use crate::wire::{
    spec_check, spec_encode, spec_parse, texts_are_lines, ARRAY, BULK, ERROR, INTEGER, SIMPLE,
};

verus! {

/// The bytes of `chunks`, one chunk after the other.
pub open spec fn joined(chunks: Seq<Seq<u8>>) -> Seq<u8>
    decreases chunks.len(),
{
    if chunks.len() == 0 {
        Seq::empty()
    } else {
        chunks[0] + joined(chunks.drop_first())
    }
}

/// What a connection that holds `buffer` makes of reads that give `chunks`
/// one after the other: each chunk goes to `read_frame` as long as the step
/// before asked for bytes. The result is the last step, the buffer after
/// it, and the number of chunks that went in.
pub open spec fn spec_read_chunks(buffer: Seq<u8>, chunks: Seq<Seq<u8>>) -> (
    Result<StepView, connection::Error>,
    Seq<u8>,
    nat,
)
    decreases chunks.len(),
{
    if chunks.len() == 0 {
        (Ok(StepView::Read), buffer, 0)
    } else {
        let (step, rest) = spec_read_frame(buffer, Some(chunks[0]));
        if step == Ok::<StepView, connection::Error>(StepView::Read) {
            let (last, left, count) = spec_read_chunks(rest, chunks.drop_first());
            (last, left, count + 1)
        } else {
            (step, rest, 1)
        }
    }
}

/// The frame `frame` takes exactly the bytes `data`.
pub open spec fn is_frame(data: Seq<u8>, frame: FrameView) -> bool {
    spec_parse(data, 0) == Ok::<(FrameView, nat), Error>((frame, data.len()))
}

/// One read on the way to a frame.
///
/// The buffer holds the first `cut` bytes of the frame's bytes `data`, and
/// the read gives the next bytes of the stream, in which `extra` follows
/// `data`. While the frame is not complete the connection asks for more and
/// keeps all the bytes. The read that completes the frame gives the frame,
/// and the bytes behind it stay in the buffer.
pub proof fn lemma_read_step(
    data: Seq<u8>,
    extra: Seq<u8>,
    frame: FrameView,
    cut: int,
    chunk: Seq<u8>,
)
    requires
        is_frame(data, frame),
        0 <= cut < data.len(),
        chunk.len() > 0,
        cut + chunk.len() <= data.len() + extra.len(),
        (data + extra).subrange(cut, cut + chunk.len()) == chunk,
    ensures
        cut + chunk.len() < data.len() ==> spec_read_frame(data.take(cut), Some(chunk)) == (
            Ok::<StepView, connection::Error>(StepView::Read),
            data.take(cut + chunk.len()),
        ),
        cut + chunk.len() >= data.len() ==> spec_read_frame(data.take(cut), Some(chunk)) == (
            Ok::<StepView, connection::Error>(StepView::Frame(frame)),
            (data + extra).subrange(data.len() as int, cut + chunk.len()),
        ),
{
    let all = data + extra;
    let grown = data.take(cut) + chunk;
    let end = cut + chunk.len();
    lemma_check_of_parsed(data, 0);
    assert(grown =~= all.take(end));
    assert(chunk != Seq::<u8>::empty());
    if end < data.len() {
        assert(grown =~= data.take(end));
        lemma_check_incomplete(data, end);
    } else {
        assert(data.is_prefix_of(grown));
        lemma_check_prefix(data, grown, 0);
        lemma_parse_prefix(data, grown, 0);
        assert(grown.skip(data.len() as int) =~= all.subrange(data.len() as int, end));
    }
}

/// The same for reads that follow one another: the frame comes with the
/// last read, and with no read before it.
pub proof fn lemma_read_chunks(
    data: Seq<u8>,
    extra: Seq<u8>,
    frame: FrameView,
    cut: int,
    chunks: Seq<Seq<u8>>,
)
    requires
        is_frame(data, frame),
        0 <= cut < data.len(),
        chunks.len() >= 1,
        forall|i: int| 0 <= i < chunks.len() ==> (#[trigger] chunks[i]).len() > 0,
        joined(chunks) == (data + extra).skip(cut),
        cut + joined(chunks.drop_last()).len() < data.len(),
    ensures
        spec_read_chunks(data.take(cut), chunks) == (
            Ok::<StepView, connection::Error>(StepView::Frame(frame)),
            extra,
            chunks.len(),
        ),
    decreases chunks.len(),
{
    let all = data + extra;
    let first = chunks[0];
    let others = chunks.drop_first();
    let end = cut + first.len();
    assert(all.skip(cut).len() == all.len() - cut);
    assert(joined(chunks).len() == first.len() + joined(others).len());
    assert(all.subrange(cut, end) =~= first) by {
        assert(joined(chunks).subrange(0, first.len() as int) =~= first);
        assert(all.skip(cut).subrange(0, first.len() as int) =~= all.subrange(cut, end));
    }
    lemma_read_step(data, extra, frame, cut, first);
    if chunks.len() == 1 {
        assert(others =~= Seq::<Seq<u8>>::empty());
        assert(joined(others) =~= Seq::<u8>::empty());
        assert(joined(chunks.drop_last()) =~= Seq::<u8>::empty());
        assert(all.subrange(data.len() as int, end) =~= extra);
    } else {
        let before = chunks.drop_last();
        assert(before[0] == first);
        assert(before.drop_first() =~= others.drop_last());
        assert(joined(before).len() == first.len() + joined(others.drop_last()).len());
        assert(joined(others) =~= all.skip(end)) by {
            assert(joined(chunks).skip(first.len() as int) =~= joined(others));
            assert(all.skip(cut).skip(first.len() as int) =~= all.skip(end));
        }
        assert forall|i: int| 0 <= i < others.len() implies (#[trigger] others[i]).len()
            > 0 by {
            assert(others[i] == chunks[i + 1]);
        }
        lemma_read_chunks(data, extra, frame, end, others);
    }
}

/// A frame that arrives in pieces, split at any places, comes out once,
/// with the read that completes it, as the frame that its bytes decode to;
/// and the bytes that this read gave behind the frame are what the buffer
/// holds for the next one.
///
/// The connection starts with an empty buffer. No read is empty, the reads
/// together give `data` and then `extra`, and the frame ends in the last
/// read.
pub proof fn lemma_incremental_decoding(
    data: Seq<u8>,
    extra: Seq<u8>,
    frame: FrameView,
    chunks: Seq<Seq<u8>>,
)
    requires
        is_frame(data, frame),
        chunks.len() >= 1,
        forall|i: int| 0 <= i < chunks.len() ==> (#[trigger] chunks[i]).len() > 0,
        joined(chunks) == data + extra,
        joined(chunks.drop_last()).len() < data.len(),
    ensures
        spec_read_chunks(Seq::empty(), chunks) == (
            Ok::<StepView, connection::Error>(StepView::Frame(frame)),
            extra,
            chunks.len(),
        ),
{
    assert((data + extra).skip(0) =~= data + extra);
    assert(data.take(0) =~= Seq::<u8>::empty());
    lemma_read_chunks(data, extra, frame, 0, chunks);
}

/// What one connection writes, another reads: a frame whose texts can each
/// stand on one line, handed over in one piece, comes out as it went in, and
/// nothing is left in the buffer.
pub proof fn lemma_read_written(frame: FrameView)
    requires
        texts_are_lines(frame),
        spec_encode(frame).len() <= usize::MAX,
    ensures
        spec_read_frame(Seq::empty(), Some(spec_encode(frame))) == (
            Ok::<StepView, connection::Error>(StepView::Frame(frame)),
            Seq::<u8>::empty(),
        ),
{
    let data = spec_encode(frame);
    lemma_round_trip(frame);
    lemma_encode_len(frame);
    assert(Seq::<u8>::empty() + data =~= data);
    assert(data.skip(data.len() as int) =~= Seq::<u8>::empty());
}

/// A buffer that starts with a byte with which no frame starts is refused
/// for good: the check reports a protocol error, and the connection gives
/// up with the buffer as it was.
pub proof fn lemma_unknown_kind(buffer: Seq<u8>)
    requires
        buffer.len() > 0,
        buffer[0] != SIMPLE,
        buffer[0] != ERROR,
        buffer[0] != INTEGER,
        buffer[0] != BULK,
        buffer[0] != ARRAY,
    ensures
        spec_check(buffer, 0) == Err::<nat, Error>(Error::ProtocolError { b: buffer[0] }),
        spec_parse_frame(buffer) == (
            Err::<Option<FrameView>, connection::Error>(connection::Error::Frame),
            buffer,
        ),
{
}

} // verus!
