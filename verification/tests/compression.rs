use flate2::{Compress, Compression, Decompress, FlushDecompress};
use gateway_proxy::compress::{
    compress_full, decide, ends_with_trailer, feed_step, flush_for, flush_step, CompressFault,
    Flush, Next, Phase, Step, StreamStatus, LEVEL, ROUND_LIMIT, TRAILER, ZLIB_HEADER,
};
use gateway_proxy::protocol::hello;
use gateway_proxy::writer::{FrameWriter, WireFrame};

fn inflate(stream: &mut Decompress, chunk: &[u8]) -> Vec<u8> {
    let mut out: Vec<u8> = Vec::with_capacity(4 * 1024 * 1024);
    stream.decompress_vec(chunk, &mut out, FlushDecompress::Sync).unwrap();
    out
}

fn binary(frame: Result<WireFrame, gateway_proxy::compress::CompressFault>) -> Vec<u8> {
    match frame {
        Ok(WireFrame::Binary(chunk)) => chunk,
        other => panic!("no binary frame: {:?}", other),
    }
}

fn message(n: usize) -> Vec<u8> {
    let mut state: u32 = 12345;
    (0..n)
        .map(|i| {
            state = state.wrapping_mul(1103515245).wrapping_add(12345);
            if i % 3 == 0 {
                (state >> 16) as u8
            } else {
                b'a' + (i % 7) as u8
            }
        })
        .collect()
}

#[test]
fn the_trailer_is_the_sync_flush_mark() {
    assert_eq!(TRAILER, [0x00, 0x00, 0xff, 0xff]);
}

#[test]
fn ends_with_trailer_looks_at_the_last_four_bytes() {
    assert!(ends_with_trailer(&[0x00, 0x00, 0xff, 0xff]));
    assert!(ends_with_trailer(&[7, 0x00, 0x00, 0xff, 0xff]));
    assert!(!ends_with_trailer(&[0x00, 0x00, 0xff, 0xff, 0]));
    assert!(!ends_with_trailer(&[0x00, 0xff, 0xff]));
    assert!(!ends_with_trailer(&[]));
    assert!(!ends_with_trailer(&[0x00, 0x00, 0xff, 0xfe]));
}

#[test]
fn after_feeding_the_status_decides() {
    assert_eq!(feed_step(StreamStatus::Okay), Step::Again);
    assert_eq!(feed_step(StreamStatus::BufError), Step::Grow);
    assert_eq!(feed_step(StreamStatus::StreamEnd), Step::Stop);
}

#[test]
fn after_flushing_the_status_decides() {
    assert_eq!(flush_step(StreamStatus::Okay), Step::Again);
    assert_eq!(flush_step(StreamStatus::BufError), Step::Again);
    assert_eq!(flush_step(StreamStatus::StreamEnd), Step::Stop);
}

#[test]
fn compress_full_gives_a_chunk_that_inflates_to_the_message() {
    let mut stream = Compress::new(Compression::fast(), true);
    let mut output = Vec::with_capacity(32 * 1024);
    let input = hello();
    assert_eq!(compress_full(&mut stream, &mut output, &input), Ok(()));
    assert!(output.ends_with(&TRAILER));
    assert_eq!(stream.total_in(), input.len() as u64);
    assert_eq!(stream.total_out(), output.len() as u64);
    assert_ne!(output, input);
    assert_eq!(inflate(&mut Decompress::new(true), &output), input);
}

#[test]
fn compress_full_appends_to_the_output() {
    let mut stream = Compress::new(Compression::fast(), true);
    let mut output = b"kept".to_vec();
    output.reserve(1024);
    assert_eq!(compress_full(&mut stream, &mut output, b"hello hello hello"), Ok(()));
    assert_eq!(&output[..4], b"kept");
    assert!(output.ends_with(&TRAILER));
    assert_eq!(stream.total_out(), (output.len() - 4) as u64);
    assert_eq!(inflate(&mut Decompress::new(true), &output[4..]), b"hello hello hello".to_vec());
}

#[test]
fn compress_full_grows_an_output_without_room() {
    let mut stream = Compress::new(Compression::fast(), true);
    let mut output = Vec::new();
    let input = message(300_000);
    assert_eq!(compress_full(&mut stream, &mut output, &input), Ok(()));
    assert!(output.ends_with(&TRAILER));
    assert_eq!(stream.total_in(), input.len() as u64);
    assert_eq!(inflate(&mut Decompress::new(true), &output), input);
}

#[test]
fn compress_full_of_an_empty_message_is_a_flush() {
    let mut stream = Compress::new(Compression::fast(), true);
    let mut output = Vec::new();
    assert_eq!(compress_full(&mut stream, &mut output, b""), Ok(()));
    assert!(output.ends_with(&TRAILER));
    assert_eq!(stream.total_in(), 0);
    assert_eq!(inflate(&mut Decompress::new(true), &output), Vec::<u8>::new());
}

#[test]
fn compress_full_flushes_even_if_the_output_ends_like_a_chunk() {
    let mut stream = Compress::new(Compression::fast(), true);
    let mut output = vec![0x00, 0x00, 0xff, 0xff];
    assert_eq!(compress_full(&mut stream, &mut output, b"abc"), Ok(()));
    assert!(output.len() > 4);
    assert!(output.ends_with(&TRAILER));
    assert_eq!(inflate(&mut Decompress::new(true), &output[4..]), b"abc".to_vec());
}

#[test]
fn compressed_path_sends_hello_as_a_binary_frame() {
    let mut writer = FrameWriter::new(true);
    assert!(writer.use_zlib());
    let chunk = binary(writer.encode(hello()));
    assert_eq!(&chunk[chunk.len() - 4..], &[0x00, 0x00, 0xff, 0xff]);
    assert_eq!(
        inflate(&mut Decompress::new(true), &chunk),
        b"{\"t\":null,\"s\":null,\"op\":10,\"d\":{\"heartbeat_interval\":41250}}".to_vec()
    );
}

#[test]
fn without_compression_frames_go_out_as_text() {
    let mut writer = FrameWriter::new(false);
    assert!(!writer.use_zlib());
    assert_eq!(writer.encode(hello()), Ok(WireFrame::Text(hello())));
    assert_eq!(writer.encode(Vec::new()), Ok(WireFrame::Text(Vec::new())));
}

#[test]
fn the_frames_of_a_client_are_one_zlib_stream() {
    let texts: Vec<Vec<u8>> = vec![
        hello(),
        b"{\"t\":\"READY\",\"s\":0,\"op\":0,\"d\":{}}".to_vec(),
        Vec::new(),
        message(70_000),
        b"{\"t\":null,\"s\":null,\"op\":11,\"d\":null}".to_vec(),
        message(5),
    ];
    let mut writer = FrameWriter::new(true);
    let mut stream = Decompress::new(true);
    let mut sent: Vec<u8> = Vec::new();
    for text in &texts {
        let chunk = binary(writer.encode(text.clone()));
        assert!(chunk.ends_with(&TRAILER));
        assert_eq!(&inflate(&mut stream, &chunk), text);
        sent.extend_from_slice(&chunk);
    }
    assert_eq!(inflate(&mut Decompress::new(true), &sent), texts.concat());
}

#[test]
fn the_compression_decision_switches_on_and_never_off() {
    let mut writer = FrameWriter::new(false);
    writer.adopt(None);
    assert!(!writer.use_zlib());
    writer.adopt(Some(false));
    assert!(!writer.use_zlib());
    writer.adopt(Some(true));
    assert!(writer.use_zlib());
    writer.adopt(Some(false));
    assert!(writer.use_zlib());
    writer.adopt(None);
    assert!(writer.use_zlib());
    let mut writer = FrameWriter::new(true);
    writer.adopt(Some(false));
    assert!(writer.use_zlib());
}

#[test]
fn frames_after_the_decision_are_compressed() {
    let mut writer = FrameWriter::new(false);
    assert_eq!(writer.encode(hello()), Ok(WireFrame::Text(hello())));
    writer.adopt(Some(true));
    let ready = b"{\"t\":\"READY\",\"s\":0,\"op\":0,\"d\":{}}".to_vec();
    let chunk = binary(writer.encode(ready.clone()));
    assert!(chunk.ends_with(&TRAILER));
    assert_eq!(inflate(&mut Decompress::new(true), &chunk), ready);
}

#[test]
fn the_message_is_fed_without_a_flush_and_then_flushed_in_sync() {
    assert_eq!(flush_for(Phase::Feed), Flush::NoFlush);
    assert_eq!(flush_for(Phase::Flush), Flush::Sync);
}

#[test]
fn a_client_stream_is_the_fastest_with_a_zlib_header() {
    assert_eq!(LEVEL, 1);
    assert!(ZLIB_HEADER);
    assert_eq!(ROUND_LIMIT, 1048576);
    let mut writer = FrameWriter::new(true);
    let chunk = binary(writer.encode(b"abc".to_vec()));
    let mut reference = Compress::new(Compression::fast(), true);
    let mut expected = Vec::with_capacity(1024);
    reference
        .compress_vec(b"abc", &mut expected, flate2::FlushCompress::Sync)
        .unwrap();
    assert_eq!(chunk, expected);
    assert_eq!(&chunk[..2], &[0x78, 0x01]);
}

#[test]
fn an_error_of_the_stream_fails_the_message() {
    for phase in [Phase::Feed, Phase::Flush] {
        for through in [false, true] {
            for left in [0u32, 1, 7] {
                assert_eq!(
                    decide(phase, None, through, left),
                    Next::Fail(CompressFault::Rejected)
                );
            }
        }
    }
}

#[test]
fn the_end_of_the_stream_fails_the_message_unless_the_trailer_stands() {
    let end = Some(StreamStatus::StreamEnd);
    assert_eq!(decide(Phase::Feed, end, false, 5), Next::Fail(CompressFault::Ended));
    assert_eq!(decide(Phase::Feed, end, true, 5), Next::Fail(CompressFault::Ended));
    assert_eq!(decide(Phase::Flush, end, false, 5), Next::Fail(CompressFault::Ended));
    assert_eq!(decide(Phase::Flush, end, false, 0), Next::Fail(CompressFault::Ended));
    assert_eq!(decide(Phase::Flush, end, true, 5), Next::Done);
    assert_eq!(decide(Phase::Flush, end, true, 0), Next::Done);
}

#[test]
fn a_part_is_done_once_it_is_through() {
    for status in [StreamStatus::Okay, StreamStatus::BufError] {
        for left in [0u32, 1] {
            assert_eq!(decide(Phase::Feed, Some(status), true, left), Next::Done);
            assert_eq!(decide(Phase::Flush, Some(status), true, left), Next::Done);
        }
    }
}

#[test]
fn a_part_that_is_not_through_goes_on_while_calls_are_left() {
    assert_eq!(decide(Phase::Feed, Some(StreamStatus::Okay), false, 1), Next::Again);
    assert_eq!(decide(Phase::Feed, Some(StreamStatus::BufError), false, 1), Next::Grow);
    assert_eq!(decide(Phase::Flush, Some(StreamStatus::Okay), false, 1), Next::Again);
    assert_eq!(decide(Phase::Flush, Some(StreamStatus::BufError), false, 1), Next::Again);
    assert_eq!(decide(Phase::Feed, Some(StreamStatus::Okay), false, u32::MAX), Next::Again);
}

#[test]
fn a_part_that_is_not_through_stalls_when_no_call_is_left() {
    for phase in [Phase::Feed, Phase::Flush] {
        for status in [StreamStatus::Okay, StreamStatus::BufError] {
            assert_eq!(
                decide(phase, Some(status), false, 0),
                Next::Fail(CompressFault::Stalled)
            );
        }
    }
}

#[test]
fn a_stream_that_has_ended_fails_the_message() {
    let mut stream = Compress::new(Compression::fast(), true);
    let mut output = Vec::with_capacity(1024);
    stream
        .compress_vec(b"last", &mut output, flate2::FlushCompress::Finish)
        .unwrap();
    let taken = stream.total_in();
    let mut more = Vec::with_capacity(1024);
    let result = compress_full(&mut stream, &mut more, b"more");
    assert!(result.is_err());
    assert!(stream.total_in() - taken <= 4);
    assert_eq!(stream.total_out() as usize, output.len() + more.len());
}
