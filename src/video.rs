//! The receive step of the video loop: datagrams in, decoded frames out.

use crate::assembler::FrameAssembler;
use crate::decoding::{first_unit, h264_decode};
use openh264::decoder::Decoder;
use vstd::prelude::*;

verus! {

/// A decoded picture: `width * height` pixels of four bytes each, RGBA.
pub struct DecodedFrame {
    pub pixels: Vec<u8>,
    pub width: usize,
    pub height: usize,
}

/// What one datagram led to.
pub enum Received {
    /// No unit is complete yet.
    Pending,
    /// A unit was complete but gave no picture; it was dropped.
    Dropped,
    /// A unit was complete and decoded; it was dropped from the buffer.
    Frame(DecodedFrame),
}

/// The accumulation buffer and the decoder that lives as long as the stream.
pub struct VideoReceiver {
    assembler: FrameAssembler,
    decoder: Decoder,
}

impl View for VideoReceiver {
    type V = Seq<u8>;

    closed spec fn view(&self) -> Seq<u8> {
        self.assembler@
    }
}

impl VideoReceiver {
    /// A receiver with an empty buffer around `decoder`.
    pub fn new(decoder: Decoder) -> (r: VideoReceiver)
        ensures
            r@ == Seq::<u8>::empty(),
    {
        VideoReceiver { assembler: FrameAssembler::new(), decoder }
    }

    /// The bytes buffered, oldest first.
    pub fn buffered(&self) -> (r: &[u8])
        ensures
            r@ == self@,
    {
        self.assembler.buffered()
    }

    /// Appends `datagram`; if that completes a unit, cuts it out, drops the
    /// bytes before the next start code, and hands the unit to the decoder
    /// once. Without a complete unit the decoder is not called.
    pub fn receive(&mut self, datagram: &[u8]) -> (r: Received)
        ensures
            ({
                let buf = old(self)@ + datagram@;
                match first_unit(buf) {
                    None => r is Pending && final(self)@ == buf,
                    Some((a, b)) => {
                        &&& !(r is Pending)
                        &&& final(self)@ == buf.subrange(b, buf.len() as int)
                        &&& r matches Received::Frame(f) ==> f.pixels@.len() == f.width * f.height
                            * 4
                    },
                }
            }),
    {
        self.assembler.push(datagram);
        match self.assembler.take_unit() {
            None => Received::Pending,
            Some(unit) => match h264_decode(unit.as_slice(), &mut self.decoder) {
                Ok((pixels, (width, height))) => Received::Frame(
                    DecodedFrame { pixels, width, height },
                ),
                Err(()) => Received::Dropped,
            },
        }
    }
}

} // verus!
