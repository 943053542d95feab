//! The last step before a client's socket: each frame goes out as text, or
//! compressed on the client's zlib stream.

use vstd::prelude::*;
use flate2::Compress;
use crate::compress::{
    calls, compress_full, compressed, ends_with, feeds_of, given_out, new_stream, taken_in, Call,
    CompressFault, LEVEL, TRAILER, ZLIB_HEADER,
};

verus! {

/// The room that the buffer of a client's stream starts with.
pub const BUFFER_ROOM: usize = 32768;

/// A frame as it goes onto the socket.
#[derive(Clone, Debug, PartialEq, Eq)]
pub enum WireFrame {
    /// A text frame.
    Text(Vec<u8>),
    /// A binary frame: a chunk of the client's zlib stream.
    Binary(Vec<u8>),
}

/// What a `FrameWriter` stands for: whether it compresses, all the text that
/// its stream has taken in, all the bytes that the stream has given out, and
/// all the calls that were made of the stream.
pub ghost struct WriterView {
    pub use_zlib: bool,
    pub fed: Seq<u8>,
    pub sent: Seq<u8>,
    pub calls: Seq<Call>,
}

/// Whether a frame was made ready, and if not, why not.
pub open spec fn outcome_of(r: Result<WireFrame, CompressFault>) -> Result<(), CompressFault> {
    match r {
        Ok(_) => Ok(()),
        Err(fault) => Err(fault),
    }
}

/// The writer of one client.
pub struct FrameWriter {
    use_zlib: bool,
    compress: Compress,
    buffer: Vec<u8>,
}

impl View for FrameWriter {
    type V = WriterView;

    closed spec fn view(&self) -> WriterView {
        WriterView {
            use_zlib: self.use_zlib,
            fed: taken_in(self.compress),
            sent: given_out(self.compress),
            calls: calls(self.compress),
        }
    }
}

impl FrameWriter {
    /// The writer of a client that has just connected; `use_zlib` says whether
    /// it asked for compression when connecting.
    pub fn new(use_zlib: bool) -> (r: FrameWriter)
        ensures
            r@ == (WriterView {
                use_zlib,
                fed: Seq::empty(),
                sent: Seq::empty(),
                calls: Seq::empty(),
            }),
    {
        FrameWriter { use_zlib, compress: new_stream(LEVEL, ZLIB_HEADER), buffer: Vec::with_capacity(BUFFER_ROOM) }
    }

    /// Whether frames go out compressed.
    pub fn use_zlib(&self) -> (r: bool)
        ensures
            r == self@.use_zlib,
    {
        self.use_zlib
    }

    /// Takes in what the client's IDENTIFY said of compression, nothing where
    /// none came: compression is switched on if it asked for it, and never off.
    pub fn adopt(&mut self, decision: Option<bool>)
        ensures
            final(self)@.use_zlib == (old(self)@.use_zlib || decision == Some(true)),
            final(self)@.fed == old(self)@.fed,
            final(self)@.sent == old(self)@.sent,
            final(self)@.calls == old(self)@.calls,
    {
        if let Some(true) = decision {
            self.use_zlib = true;
        }
    }

    /// Makes a frame ready for the socket. Without compression it goes out as
    /// the text it is. With compression the stream takes in the whole text, and
    /// the frame is what the stream gives out for it, up to and with the
    /// trailer. That can fail, as the calls of the stream turn out, and then
    /// the stream has taken a first part of the text and has given out what is
    /// not sent.
    pub fn encode(&mut self, frame: Vec<u8>) -> (r: Result<WireFrame, CompressFault>)
        ensures
            final(self)@.use_zlib == old(self)@.use_zlib,
            !old(self)@.use_zlib ==> r is Ok,
            old(self)@.calls.len() <= final(self)@.calls.len(),
            final(self)@.calls.take(old(self)@.calls.len() as int) == old(self)@.calls,
            old(self)@.use_zlib ==> compressed(
                final(self)@.calls.skip(old(self)@.calls.len() as int),
                feeds_of(final(self)@.calls.skip(old(self)@.calls.len() as int)),
                frame@.len(),
                final(self)@.fed == old(self)@.fed + frame@,
                ends_with(final(self)@.sent.skip(old(self)@.sent.len() as int), TRAILER@),
                outcome_of(r),
            ),
            match r {
                Ok(WireFrame::Text(text)) => {
                    &&& !old(self)@.use_zlib
                    &&& text@ == frame@
                    &&& final(self)@ == old(self)@
                },
                Ok(WireFrame::Binary(chunk)) => {
                    &&& old(self)@.use_zlib
                    &&& final(self)@.fed == old(self)@.fed + frame@
                    &&& final(self)@.sent == old(self)@.sent + chunk@
                    &&& ends_with(chunk@, TRAILER@)
                },
                Err(_) => {
                    &&& old(self)@.use_zlib
                    &&& old(self)@.fed.len() <= final(self)@.fed.len() <= old(self)@.fed.len()
                        + frame@.len()
                    &&& final(self)@.fed == old(self)@.fed + frame@.take(
                        final(self)@.fed.len() - old(self)@.fed.len(),
                    )
                    &&& old(self)@.sent.len() <= final(self)@.sent.len()
                    &&& final(self)@.sent.take(old(self)@.sent.len() as int) == old(self)@.sent
                },
            },
    {
        if !self.use_zlib {
            assert(self@.calls.take(self@.calls.len() as int) =~= self@.calls);
            return Ok(WireFrame::Text(frame));
        }
        self.buffer.clear();
        let result = compress_full(&mut self.compress, &mut self.buffer, frame.as_slice());
        proof {
            assert(self.buffer@.skip(0) =~= self.buffer@);
            assert(given_out(self.compress).skip(old(self)@.sent.len() as int) =~= self.buffer@);
        }
        match result {
            Ok(()) => {
                let chunk = vstd::slice::slice_to_vec(self.buffer.as_slice());
                Ok(WireFrame::Binary(chunk))
            },
            Err(fault) => {
                assert(given_out(self.compress).take(old(self)@.sent.len() as int) =~= old(
                    self,
                )@.sent);
                Err(fault)
            },
        }
    }
}

} // verus!
