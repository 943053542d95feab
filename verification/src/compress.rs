//! The zlib stream of one client: each message is fed to the stream whole and
//! flushed out, so that what is sent for it ends with the mark by which the
//! client finds the message's end.

use vstd::prelude::*;
use flate2::{Compress, CompressError, Compression, FlushCompress, Status};
use crate::scan::occurs_at;

verus! {

/// The four bytes that a flushed chunk of the stream ends with.
pub const TRAILER: [u8; 4] = [0x00, 0x00, 0xff, 0xff];

/// How many times the stream is called at most while a message is fed, and
/// again while it is flushed.
pub const ROUND_LIMIT: u32 = 1048576;

/// By how much the output grows when the stream has run out of room.
pub const GROWTH: usize = 4096;

/// The room that the output is given before each call that flushes.
pub const FLUSH_ROOM: usize = 5;

/// The level of compression of a client's stream: the fastest.
pub const LEVEL: u32 = 1;

/// A client's stream begins with a zlib header.
pub const ZLIB_HEADER: bool = true;

/// The stream type of flate2, of which Verus sees nothing but the three
/// histories below.
#[verifier::external_type_specification]
#[verifier::external_body]
pub struct ExCompress(Compress);

/// The error type of flate2's stream.
#[verifier::external_type_specification]
#[verifier::external_body]
pub struct ExCompressError(CompressError);

/// All the bytes that a stream has taken in since it was made, in order.
pub uninterp spec fn taken_in(stream: Compress) -> Seq<u8>;

/// All the bytes that a stream has given out since it was made, in order.
pub uninterp spec fn given_out(stream: Compress) -> Seq<u8>;

/// All the calls that were made of a stream since it was made, in order.
pub uninterp spec fn calls(stream: Compress) -> Seq<Call>;

/// How the stream is asked to flush.
#[derive(Clone, Copy, Debug, PartialEq, Eq)]
pub enum Flush {
    /// The stream decides when it gives output.
    NoFlush,
    /// The stream gives out all that it holds back, and ends it on a byte
    /// boundary.
    Sync,
}

/// What the stream reports after a call.
#[derive(Clone, Copy, Debug, PartialEq, Eq)]
pub enum StreamStatus {
    /// It went on.
    Okay,
    /// It could not go on for want of input or of room.
    BufError,
    /// It has ended.
    StreamEnd,
}

/// One call of a stream: how it asked the stream to flush, and what the
/// stream reported, nothing where it reported an error.
pub ghost struct Call {
    pub flush: Flush,
    pub report: Option<StreamStatus>,
}

/// The two parts of compressing a message.
#[derive(Clone, Copy, Debug, PartialEq, Eq)]
pub enum Phase {
    /// The message is fed to the stream.
    Feed,
    /// The stream is flushed.
    Flush,
}

/// What a status asks for after a call of the stream.
#[derive(Clone, Copy, Debug, PartialEq, Eq)]
pub enum Step {
    /// Call it again.
    Again,
    /// Give the output more room, then call it again.
    Grow,
    /// Call it no more.
    Stop,
}

/// What follows a call of the stream.
#[derive(Clone, Copy, Debug, PartialEq, Eq)]
pub enum Next {
    /// Another call.
    Again,
    /// More room for the output, then another call.
    Grow,
    /// The part is through.
    Done,
    /// The message cannot be compressed.
    Fail(CompressFault),
}

/// Why a message could not be compressed.
#[derive(Clone, Copy, Debug, PartialEq, Eq)]
pub enum CompressFault {
    /// The stream reported an error.
    Rejected,
    /// The stream ended before the message was through.
    Ended,
    /// The stream was not through with the message within the limit of calls.
    Stalled,
}

/// `s` ends with `tail`.
pub open spec fn ends_with(s: Seq<u8>, tail: Seq<u8>) -> bool {
    s.len() >= tail.len() && s.subrange(s.len() - tail.len(), s.len() as int) == tail
}

/// How the stream is asked to flush in each part: not at all while the message
/// is fed, with a sync flush afterwards.
pub open spec fn flush_of(phase: Phase) -> Flush {
    match phase {
        Phase::Feed => Flush::NoFlush,
        Phase::Flush => Flush::Sync,
    }
}

/// What a status asks for after a call that fed input: go on after `Okay`,
/// grow the output after `BufError`, stop at the stream's end.
pub open spec fn step_after_feed(status: StreamStatus) -> Step {
    match status {
        StreamStatus::Okay => Step::Again,
        StreamStatus::BufError => Step::Grow,
        StreamStatus::StreamEnd => Step::Stop,
    }
}

/// What a status asks for after a call that flushed: go on unless the stream
/// has ended.
pub open spec fn step_after_flush(status: StreamStatus) -> Step {
    match status {
        StreamStatus::Okay => Step::Again,
        StreamStatus::BufError => Step::Again,
        StreamStatus::StreamEnd => Step::Stop,
    }
}

/// What a status asks for after a call in the given part.
pub open spec fn step_after(phase: Phase, status: StreamStatus) -> Step {
    match phase {
        Phase::Feed => step_after_feed(status),
        Phase::Flush => step_after_flush(status),
    }
}

/// What follows a call of the stream. `report` is what the stream reported,
/// nothing where it reported an error; `through` says whether the part has
/// reached its end, which is for feeding that the stream has taken the whole
/// message and for flushing that the output ends with the trailer;
/// `calls_left` is how many more calls the part may make.
///
/// An error of the stream fails the message. So does the stream's end, unless
/// it comes while flushing with the trailer in place. Otherwise the part is
/// done once it is through; failing that it goes on, after growing the output
/// where the status asks for it, unless no call is left.
pub open spec fn next_after(
    phase: Phase,
    report: Option<StreamStatus>,
    through: bool,
    calls_left: u32,
) -> Next {
    match report {
        None => Next::Fail(CompressFault::Rejected),
        Some(status) => match step_after(phase, status) {
            Step::Stop => if phase == Phase::Flush && through {
                Next::Done
            } else {
                Next::Fail(CompressFault::Ended)
            },
            step => if through {
                Next::Done
            } else if calls_left == 0 {
                Next::Fail(CompressFault::Stalled)
            } else if step == Step::Grow {
                Next::Grow
            } else {
                Next::Again
            },
        },
    }
}

/// What the stream reported, nothing where it reported an error.
pub open spec fn reported(result: Result<StreamStatus, CompressError>) -> Option<StreamStatus> {
    match result {
        Ok(status) => Some(status),
        Err(_) => None,
    }
}

/// How a message's compression ends where `next` is what follows its last
/// call; nothing where more calls follow.
pub open spec fn ending(next: Next) -> Option<Result<(), CompressFault>> {
    match next {
        Next::Done => Some(Ok(())),
        Next::Fail(fault) => Some(Err(fault)),
        _ => None,
    }
}

/// Where the first call from `from` on stands that flushed; the number of
/// calls if there is none.
pub open spec fn first_flush(made: Seq<Call>, from: int) -> int
    decreases made.len() - from,
{
    if 0 <= from < made.len() && made[from].flush == Flush::NoFlush {
        first_flush(made, from + 1)
    } else {
        from
    }
}

/// How many of the calls fed the message: those before the first that flushed.
pub open spec fn feeds_of(made: Seq<Call>) -> int {
    first_flush(made, 0)
}

/// What compressing a message of `message` bytes made of the stream and came
/// to. `made` are the calls, of which the first `feeds` fed the message and
/// the others flushed; `taken_all` says whether the stream has taken the whole
/// message, `trailer` whether the output ends with the trailer, and `r` is the
/// result.
///
/// At least one call was made, and no more in either part than the limit. A
/// message with bytes was fed, an empty one was not. The stream was flushed
/// only once it had taken the whole message, and it was flushed unless
/// feeding failed. Every call but the last let the work go on, and the result
/// is what follows the last call.
pub open spec fn compressed(
    made: Seq<Call>,
    feeds: int,
    message: nat,
    taken_all: bool,
    trailer: bool,
    r: Result<(), CompressFault>,
) -> bool {
    let flushes = made.len() - feeds;
    &&& 0 <= feeds <= made.len() && 1 <= made.len()
    &&& feeds <= ROUND_LIMIT && flushes <= ROUND_LIMIT
    &&& (feeds == 0) == (message == 0)
    &&& flushes > 0 ==> taken_all
    &&& flushes == 0 ==> r is Err
    &&& forall|i: int|
        0 <= i < made.len() ==> (#[trigger] made[i]).flush == flush_of(
            if i < feeds {
                Phase::Feed
            } else {
                Phase::Flush
            },
        )
    &&& forall|i: int|
        0 <= i < made.len() - 1 ==> (#[trigger] made[i]).report == Some(StreamStatus::Okay)
            || made[i].report == Some(StreamStatus::BufError)
    &&& ending(
        if flushes > 0 {
            next_after(Phase::Flush, made.last().report, trailer, (ROUND_LIMIT - flushes) as u32)
        } else {
            next_after(Phase::Feed, made.last().report, taken_all, (ROUND_LIMIT - feeds) as u32)
        },
    ) == Some(r)
}

/// `flate2::Compress::new` with a level and with or without a zlib header: a
/// stream of which no call was made, and which has taken in and given out
/// nothing.
#[verifier::external_body]
pub(crate) fn new_stream(level: u32, zlib_header: bool) -> (stream: Compress)
    requires
        level <= 9,
    ensures
        taken_in(stream) == Seq::<u8>::empty(),
        given_out(stream) == Seq::<u8>::empty(),
        calls(stream) == Seq::<Call>::empty(),
{
    Compress::new(Compression::new(level), zlib_header)
}

/// `flate2::Compress::total_in`: the number of bytes that the stream has taken
/// in.
#[verifier::external_body]
pub(crate) fn total_in(stream: &Compress) -> (n: u64)
    ensures
        n == taken_in(*stream).len(),
{
    stream.total_in()
}

/// `flate2::Compress::compress_vec`: one more call is made of the stream, with
/// this flush mode and with what comes back as its report. The stream takes
/// some first part of `input`, and what it gives out is appended to `output`,
/// which keeps what it held. This holds whatever the call reports.
#[verifier::external_body]
pub(crate) fn deflate(stream: &mut Compress, input: &[u8], output: &mut Vec<u8>, flush: Flush) -> (r:
    Result<StreamStatus, CompressError>)
    ensures
        calls(*final(stream)) == calls(*old(stream)).push(Call { flush, report: reported(r) }),
        taken_in(*old(stream)).len() <= taken_in(*final(stream)).len() <= taken_in(*old(stream)).len()
            + input@.len(),
        taken_in(*final(stream)) == taken_in(*old(stream)) + input@.take(
            taken_in(*final(stream)).len() - taken_in(*old(stream)).len(),
        ),
        old(output)@.len() <= final(output)@.len(),
        final(output)@.take(old(output)@.len() as int) == old(output)@,
        given_out(*final(stream)) == given_out(*old(stream)) + final(output)@.skip(
            old(output)@.len() as int,
        ),
{
    let flush = match flush {
        Flush::NoFlush => FlushCompress::None,
        Flush::Sync => FlushCompress::Sync,
    };
    match stream.compress_vec(input, output, flush) {
        Ok(Status::Ok) => Ok(StreamStatus::Okay),
        Ok(Status::BufError) => Ok(StreamStatus::BufError),
        Ok(Status::StreamEnd) => Ok(StreamStatus::StreamEnd),
        Err(e) => Err(e),
    }
}

/// Says how the stream is asked to flush in each part.
pub fn flush_for(phase: Phase) -> (flush: Flush)
    ensures
        flush == flush_of(phase),
{
    match phase {
        Phase::Feed => Flush::NoFlush,
        Phase::Flush => Flush::Sync,
    }
}

/// Says what a status asks for after a call that fed input.
pub fn feed_step(status: StreamStatus) -> (step: Step)
    ensures
        step == step_after_feed(status),
{
    match status {
        StreamStatus::Okay => Step::Again,
        StreamStatus::BufError => Step::Grow,
        StreamStatus::StreamEnd => Step::Stop,
    }
}

/// Says what a status asks for after a call that flushed.
pub fn flush_step(status: StreamStatus) -> (step: Step)
    ensures
        step == step_after_flush(status),
{
    match status {
        StreamStatus::Okay => Step::Again,
        StreamStatus::BufError => Step::Again,
        StreamStatus::StreamEnd => Step::Stop,
    }
}

/// Says what follows a call of the stream.
pub fn decide(phase: Phase, report: Option<StreamStatus>, through: bool, calls_left: u32) -> (next:
    Next)
    ensures
        next == next_after(phase, report, through, calls_left),
{
    let status = match report {
        Some(status) => status,
        None => {
            return Next::Fail(CompressFault::Rejected);
        },
    };
    let step = match phase {
        Phase::Feed => feed_step(status),
        Phase::Flush => flush_step(status),
    };
    match step {
        Step::Stop => match phase {
            Phase::Flush => if through {
                Next::Done
            } else {
                Next::Fail(CompressFault::Ended)
            },
            Phase::Feed => Next::Fail(CompressFault::Ended),
        },
        Step::Grow => if through {
            Next::Done
        } else if calls_left == 0 {
            Next::Fail(CompressFault::Stalled)
        } else {
            Next::Grow
        },
        Step::Again => if through {
            Next::Done
        } else if calls_left == 0 {
            Next::Fail(CompressFault::Stalled)
        } else {
            Next::Again
        },
    }
}

/// What came back from a call, as a report.
fn report_of(result: Result<StreamStatus, CompressError>) -> (report: Option<StreamStatus>)
    ensures
        report == reported(result),
{
    match result {
        Ok(status) => Some(status),
        Err(_) => None,
    }
}

/// Whether `output` ends with the trailer.
pub fn ends_with_trailer(output: &[u8]) -> (r: bool)
    ensures
        r == ends_with(output@, TRAILER@),
{
    let trailer = TRAILER;
    if output.len() < 4 {
        return false;
    }
    occurs_at(output, trailer.as_slice(), output.len() - 4)
}

/// An output that grew twice has grown by both additions, and holds what it
/// held at first.
proof fn lemma_output_grows(held: Seq<u8>, before: Seq<u8>, after: Seq<u8>)
    requires
        held.len() <= before.len() <= after.len(),
        before.take(held.len() as int) == held,
        after.take(before.len() as int) == before,
    ensures
        after.take(held.len() as int) == held,
        before.skip(held.len() as int) + after.skip(before.len() as int) == after.skip(
            held.len() as int,
        ),
{
    assert forall|i: int| 0 <= i < before.len() implies after[i] == before[i] by {
        assert(after.take(before.len() as int)[i] == after[i]);
    }
    assert(after.take(held.len() as int) =~= before.take(held.len() as int));
    assert(before.skip(held.len() as int) + after.skip(before.len() as int) =~= after.skip(
        held.len() as int,
    ));
}

/// Where the first `feeds` calls fed and the others flushed, `feeds` is the
/// number that `feeds_of` gives.
proof fn lemma_feeds(made: Seq<Call>, feeds: int, from: int)
    requires
        0 <= from <= feeds <= made.len(),
        forall|i: int|
            0 <= i < made.len() ==> (#[trigger] made[i]).flush == flush_of(
                if i < feeds {
                    Phase::Feed
                } else {
                    Phase::Flush
                },
            ),
    ensures
        first_flush(made, from) == feeds,
    decreases feeds - from,
{
    if from < feeds {
        assert(made[from].flush == Flush::NoFlush);
        lemma_feeds(made, feeds, from + 1);
    } else if from < made.len() {
        assert(made[from].flush == Flush::Sync);
    }
}

/// A first part of what is left of a message, added to the part before it, is
/// a first part of the message.
proof fn lemma_taken_grows(input: Seq<u8>, used: int, more: int)
    requires
        0 <= used <= input.len(),
        0 <= more <= input.len() - used,
    ensures
        input.take(used) + input.subrange(used, input.len() as int).take(more) == input.take(
            used + more,
        ),
{
    assert(input.take(used) + input.subrange(used, input.len() as int).take(more) =~= input.take(
        used + more,
    ));
}

/// Compresses one message: feeds `input` to the stream until the stream has
/// taken all of it, then flushes the stream until `output` ends with the
/// trailer. What the stream gives out is appended to `output`.
///
/// The stream is called at least once: without a flush while the message is
/// fed, with a sync flush afterwards. What comes of it is what follows the
/// last call, as `next_after` says. Whatever that is, the stream has taken a
/// first part of `input` and nothing else, and `output` has grown by exactly
/// what the stream gave out. On success the stream has taken all of `input`,
/// and `output` ends with the trailer.
pub fn compress_full(compressor: &mut Compress, output: &mut Vec<u8>, input: &[u8]) -> (r: Result<
    (),
    CompressFault,
>)
    ensures
        taken_in(*old(compressor)).len() <= taken_in(*final(compressor)).len() <= taken_in(
            *old(compressor),
        ).len() + input@.len(),
        taken_in(*final(compressor)) == taken_in(*old(compressor)) + input@.take(
            taken_in(*final(compressor)).len() - taken_in(*old(compressor)).len(),
        ),
        old(output)@.len() <= final(output)@.len(),
        final(output)@.take(old(output)@.len() as int) == old(output)@,
        given_out(*final(compressor)) == given_out(*old(compressor)) + final(output)@.skip(
            old(output)@.len() as int,
        ),
        calls(*old(compressor)).len() <= calls(*final(compressor)).len(),
        calls(*final(compressor)).take(calls(*old(compressor)).len() as int) == calls(
            *old(compressor),
        ),
        compressed(
                calls(*final(compressor)).skip(calls(*old(compressor)).len() as int),
                feeds_of(calls(*final(compressor)).skip(calls(*old(compressor)).len() as int)),
                input@.len(),
                taken_in(*final(compressor)) == taken_in(*old(compressor)) + input@,
                ends_with(final(output)@, TRAILER@),
                r,
            ),
        r is Ok ==> taken_in(*final(compressor)) == taken_in(*old(compressor)) + input@,
        r is Ok ==> ends_with(final(output)@, TRAILER@),
{
    let ghost taken = taken_in(*compressor);
    let ghost given = given_out(*compressor);
    let ghost called = calls(*compressor);
    let ghost held = output@;
    let ghost mut made: Seq<Call> = Seq::empty();
    let before: u64 = total_in(compressor);
    let total: usize = input.len();
    let mut used: usize = 0;
    let mut left: u32 = ROUND_LIMIT;
    proof {
        assert(taken + input@.take(0) =~= taken);
        assert(output@.take(held.len() as int) =~= held);
        assert(given + output@.skip(held.len() as int) =~= given);
        assert(called + made =~= called);
    }
    while used < total
        invariant
            taken == taken_in(*old(compressor)),
            given == given_out(*old(compressor)),
            called == calls(*old(compressor)),
            held == old(output)@,
            total == input@.len(),
            used <= total,
            before == taken.len(),
            held.len() <= output@.len(),
            output@.take(held.len() as int) == held,
            given_out(*compressor) == given + output@.skip(held.len() as int),
            taken_in(*compressor) == taken + input@.take(used as int),
            calls(*compressor) == called + made,
            made.len() + left == ROUND_LIMIT,
            made.len() == 0 ==> used == 0,
            made.len() > 0 ==> total > 0,
            used < total ==> left > 0,
            forall|i: int| 0 <= i < made.len() ==> (#[trigger] made[i]).flush == Flush::NoFlush,
            forall|i: int|
                0 <= i < made.len() ==> (#[trigger] made[i]).report == Some(StreamStatus::Okay)
                    || made[i].report == Some(StreamStatus::BufError),
        decreases left,
    {
        left = left - 1;
        let ghost output_before = output@;
        let rest = vstd::slice::slice_subrange(input, used, total);
        let result = deflate(compressor, rest, output, flush_for(Phase::Feed));
        let report = report_of(result);
        let now: u64 = total_in(compressor);
        proof {
            lemma_taken_grows(input@, used as int, now - before - used);
            lemma_output_grows(held, output_before, output@);
            made = made.push(Call { flush: Flush::NoFlush, report });
            assert(called + made =~= calls(*compressor));
        }
        used = (now - before) as usize;
        proof {
            if used == total {
                assert(input@.take(used as int) =~= input@);
            } else {
                assert((taken + input@.take(used as int)).len() != (taken + input@).len());
            }
        }
        match decide(Phase::Feed, report, used == total, left) {
            Next::Again => {},
            Next::Grow => {
                output.reserve(GROWTH);
            },
            Next::Done => {},
            Next::Fail(fault) => {
                proof {
                    assert(calls(*compressor).take(called.len() as int) =~= called);
                    assert(calls(*compressor).skip(called.len() as int) =~= made);
                    lemma_feeds(made, made.len() as int, 0);
                    assert(compressed(
                        made,
                        made.len() as int,
                        total as nat,
                        used == total,
                        ends_with(output@, TRAILER@),
                        Err(fault),
                    ));
                }
                return Err(fault);
            },
        }
    }
    assert(input@.take(used as int) =~= input@);
    let ghost feeds = made.len() as int;
    let mut left: u32 = ROUND_LIMIT;
    let mut done: bool = false;
    let no_input: Vec<u8> = Vec::new();
    while !done
        invariant
            taken == taken_in(*old(compressor)),
            given == given_out(*old(compressor)),
            called == calls(*old(compressor)),
            held == old(output)@,
            total == input@.len(),
            no_input@.len() == 0,
            held.len() <= output@.len(),
            output@.take(held.len() as int) == held,
            given_out(*compressor) == given + output@.skip(held.len() as int),
            taken_in(*compressor) == taken + input@,
            calls(*compressor) == called + made,
            0 <= feeds <= made.len(),
            feeds <= ROUND_LIMIT,
            (feeds == 0) == (total == 0),
            made.len() - feeds + left == ROUND_LIMIT,
            !done ==> left > 0,
            forall|i: int|
                0 <= i < made.len() ==> (#[trigger] made[i]).flush == flush_of(
                    if i < feeds {
                        Phase::Feed
                    } else {
                        Phase::Flush
                    },
                ),
            forall|i: int|
                0 <= i < made.len() - (if done {
                    1int
                } else {
                    0int
                }) ==> (#[trigger] made[i]).report == Some(StreamStatus::Okay) || made[i].report
                    == Some(StreamStatus::BufError),
            done ==> compressed(made, feeds, total as nat, true, true, Ok(())),
            done ==> ends_with(output@, TRAILER@),
        decreases left, !done as int,
    {
        left = left - 1;
        output.reserve(FLUSH_ROOM);
        let ghost output_before = output@;
        let ghost taken_before = taken_in(*compressor);
        let result = deflate(compressor, no_input.as_slice(), output, flush_for(Phase::Flush));
        let report = report_of(result);
        proof {
            assert(no_input@.take(taken_in(*compressor).len() - taken_before.len()) =~= Seq::<
                u8,
            >::empty());
            assert(taken_before + Seq::<u8>::empty() =~= taken_before);
            lemma_output_grows(held, output_before, output@);
            made = made.push(Call { flush: Flush::Sync, report });
            assert(called + made =~= calls(*compressor));
        }
        let trailer = ends_with_trailer(output.as_slice());
        match decide(Phase::Flush, report, trailer, left) {
            Next::Done => {
                done = true;
            },
            Next::Fail(fault) => {
                proof {
                    assert(calls(*compressor).take(called.len() as int) =~= called);
                    assert(calls(*compressor).skip(called.len() as int) =~= made);
                    lemma_feeds(made, feeds, 0);
                    assert(compressed(made, feeds, total as nat, true, trailer, Err(fault)));
                }
                return Err(fault);
            },
            _ => {},
        }
    }
    proof {
        assert(calls(*compressor).take(called.len() as int) =~= called);
        assert(calls(*compressor).skip(called.len() as int) =~= made);
        lemma_feeds(made, feeds, 0);
    }
    Ok(())
}

} // verus!
