//! The accumulation buffer that turns datagrams into NAL units.

use crate::decoding::{
    check_for_valid_packet, first_unit, lemma_first_unit_in_bounds, lemma_same_prefix, lemma_start_codes_in_bounds,
    lemma_start_codes_prefix,
    lemma_two_start_codes, start_code, start_codes, start_codes_within,
};
use vstd::prelude::*;

verus! {

/// Bytes received so far that do not yet form a complete unit. Datagrams
/// are appended at the tail; a unit is cut from the front once it is whole.
pub struct FrameAssembler {
    buffer: Vec<u8>,
}

impl View for FrameAssembler {
    type V = Seq<u8>;

    closed spec fn view(&self) -> Seq<u8> {
        self.buffer@
    }
}

impl FrameAssembler {
    /// An empty buffer.
    pub fn new() -> (r: FrameAssembler)
        ensures
            r@ == Seq::<u8>::empty(),
    {
        FrameAssembler { buffer: Vec::new() }
    }

    /// The bytes held, oldest first.
    pub fn buffered(&self) -> (r: &[u8])
        ensures
            r@ == self@,
    {
        self.buffer.as_slice()
    }

    /// Appends a datagram at the tail.
    pub fn push(&mut self, datagram: &[u8])
        ensures
            final(self)@ == old(self)@ + datagram@,
    {
        let n = datagram.len();
        let mut i: usize = 0;
        while i < n
            invariant
                n == datagram@.len(),
                i <= n,
                self@ == old(self)@ + datagram@.subrange(0, i as int),
            decreases n - i,
        {
            self.buffer.push(datagram[i]);
            i = i + 1;
            assert(datagram@.subrange(0, i as int) == datagram@.subrange(0, i - 1).push(
                datagram@[i - 1],
            ));
        }
        assert(datagram@.subrange(0, n as int) == datagram@);
    }

    /// Cuts the first complete unit out of the buffer: the bytes from the
    /// first start code up to the second. Everything before the second start
    /// code is dropped; the second start code and what follows it stay.
    /// Without two start codes nothing changes and `None` is returned.
    pub fn take_unit(&mut self) -> (r: Option<Vec<u8>>)
        ensures
            match first_unit(old(self)@) {
                Some((a, b)) => {
                    &&& r is Some
                    &&& r->0@ == old(self)@.subrange(a, b)
                    &&& final(self)@ == old(self)@.subrange(b, old(self)@.len() as int)
                },
                None => r is None && final(self)@ == old(self)@,
            },
    {
        let ghost before = self.buffer@;
        proof {
            lemma_first_unit_in_bounds(before);
        }
        match check_for_valid_packet(self.buffer.as_slice()) {
            Some((a, b)) => {
                assert(first_unit(before) == Some((a as int, b as int)));
                let tail = self.buffer.split_off(b);
                let unit = self.buffer.split_off(a);
                self.buffer = tail;
                Some(unit)
            },
            None => None,
        }
    }
}

/// A unit that arrives in two pieces. Feed an empty buffer the datagram
/// `00 00 01 ++ a`, then the datagram `b ++ 00 00 01 ++ c`, where `a` and `b`
/// hold no start code of their own: the first datagram completes nothing;
/// after the second the buffer yields exactly `00 00 01 ++ a ++ b`, and
/// `00 00 01 ++ c` stays buffered for the next unit.
pub proof fn lemma_unit_across_datagrams(a: Seq<u8>, b: Seq<u8>, c: Seq<u8>)
    requires
        start_codes(start_code() + a + b + start_code()).len() == 2,
    ensures
        first_unit(start_code() + a) is None,
        ({
            let buffer = (start_code() + a) + (b + start_code() + c);
            let end = (3 + a.len() + b.len()) as int;
            &&& first_unit(buffer) == Some((0int, end))
            &&& buffer.subrange(0, end) == start_code() + a + b
            &&& buffer.subrange(end, buffer.len() as int) == start_code() + c
        }),
{
    let sc = start_code();
    let unit = sc + a + b;
    let whole = unit + sc;
    let end = unit.len() as int;
    let buffer = (sc + a) + (b + sc + c);
    assert(buffer == whole + c);
    assert(whole[0] == 0 && whole[1] == 0 && whole[2] == 1);
    assert(whole[end] == 0 && whole[end + 1] == 0 && whole[end + 2] == 1);
    lemma_two_start_codes(whole, 0, end);
    lemma_same_prefix(buffer, whole, whole.len() as int);
    lemma_start_codes_prefix(buffer, whole.len() as int, buffer.len() as int);
    let first = sc + a;
    lemma_same_prefix(first, whole, first.len() as int);
    lemma_start_codes_prefix(whole, first.len() as int, whole.len() as int);
    lemma_start_codes_in_bounds(whole, first.len() as int);
    assert(buffer.subrange(0, end) =~= unit);
    assert(buffer.subrange(end, buffer.len() as int) =~= sc + c);
}

} // verus!
