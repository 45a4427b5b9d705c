//! Annex-B start-code scanning and H.264 frame decoding.

use openh264::formats::YUVSource;
use vstd::prelude::*;

verus! {

/// openh264's stateful decoder, carried as an opaque handle.
#[verifier::external_type_specification]
#[verifier::external_body]
pub struct ExDecoder(openh264::decoder::Decoder);

/// How many zero bytes the scanner has counted when it reaches index `i`:
/// a zero adds one, a one leaves the count as it is, any other byte clears it.
pub open spec fn zero_run(s: Seq<u8>, i: int) -> nat
    decreases i,
{
    if i <= 0 {
        0
    } else if s[i - 1] == 0 {
        zero_run(s, i - 1) + 1
    } else if s[i - 1] == 1 {
        zero_run(s, i - 1)
    } else {
        0
    }
}

/// The byte at `i` is a one that closes a start code: at least two zeros
/// were counted before it.
pub open spec fn closes_start_code(s: Seq<u8>, i: int) -> bool {
    0 <= i < s.len() && s[i] == 1 && zero_run(s, i) >= 2
}

/// The positions of the start codes that the scanner recognizes among the
/// first `n` bytes, in order; a start code is placed two bytes before the
/// one that closes it.
pub open spec fn start_codes_within(s: Seq<u8>, n: int) -> Seq<int>
    decreases n,
{
    if n <= 0 {
        Seq::empty()
    } else if closes_start_code(s, n - 1) {
        start_codes_within(s, n - 1).push(n - 3)
    } else {
        start_codes_within(s, n - 1)
    }
}

/// All start codes recognized in `s`, in order.
pub open spec fn start_codes(s: Seq<u8>) -> Seq<int> {
    start_codes_within(s, s.len() as int)
}

/// The span from the first recognized start code up to the second one,
/// if the buffer holds two.
pub open spec fn first_unit(s: Seq<u8>) -> Option<(int, int)> {
    if start_codes(s).len() >= 2 {
        Some((start_codes(s)[0], start_codes(s)[1]))
    } else {
        None
    }
}

proof fn lemma_zero_run_bound(s: Seq<u8>, i: int)
    ensures
        zero_run(s, i) <= if i <= 0 { 0 } else { i },
    decreases i,
{
    if i > 0 {
        lemma_zero_run_bound(s, i - 1);
    }
}

/// What is recognized in a prefix comes first, in the same order.
pub proof fn lemma_start_codes_prefix(s: Seq<u8>, n: int, m: int)
    requires
        n <= m,
    ensures
        start_codes_within(s, n).len() <= start_codes_within(s, m).len(),
        forall|k: int|
            0 <= k < start_codes_within(s, n).len() ==> #[trigger] start_codes_within(s, m)[k]
                == start_codes_within(s, n)[k],
    decreases m - n,
{
    if n < m {
        lemma_start_codes_prefix(s, n, m - 1);
    }
}

/// Recognized start codes lie inside the bytes scanned, in increasing order.
pub proof fn lemma_start_codes_in_bounds(s: Seq<u8>, n: int)
    requires
        n <= s.len(),
    ensures
        forall|k: int|
            0 <= k < start_codes_within(s, n).len() ==> 0 <= #[trigger] start_codes_within(s, n)[k]
                && start_codes_within(s, n)[k] + 3 <= n,
        forall|k: int, l: int|
            0 <= k < l < start_codes_within(s, n).len() ==> #[trigger] start_codes_within(s, n)[k]
                < #[trigger] start_codes_within(s, n)[l],
    decreases n,
{
    if n > 0 {
        lemma_start_codes_in_bounds(s, n - 1);
        lemma_zero_run_bound(s, n - 1);
        let prev = start_codes_within(s, n - 1);
        if closes_start_code(s, n - 1) {
            assert(start_codes_within(s, n) == prev.push(n - 3));
            assert forall|k: int|
                0 <= k < prev.len() implies #[trigger] prev[k] + 3 <= n - 1 && prev[k] < n - 3 by {}
        } else {
            assert(start_codes_within(s, n) == prev);
        }
    }
}

/// The unit that `first_unit` finds lies inside the buffer, in order.
pub proof fn lemma_first_unit_in_bounds(s: Seq<u8>)
    ensures
        match first_unit(s) {
            Some((a, b)) => 0 <= a < b && b + 3 <= s.len(),
            None => true,
        },
{
    lemma_start_codes_in_bounds(s, s.len() as int);
}

/// The three bytes of an Annex-B start code.
pub open spec fn start_code() -> Seq<u8> {
    seq![0u8, 0u8, 1u8]
}

/// `s` holds the bytes `00 00 01` at `p`.
pub open spec fn start_code_written_at(s: Seq<u8>, p: int) -> bool {
    0 <= p && p + 3 <= s.len() && s[p] == 0 && s[p + 1] == 0 && s[p + 2] == 1
}

/// What the scanner recognizes in the first `n` bytes depends on those bytes alone.
pub proof fn lemma_same_prefix(s: Seq<u8>, t: Seq<u8>, n: int)
    requires
        0 <= n <= s.len(),
        n <= t.len(),
        forall|i: int| 0 <= i < n ==> s[i] == t[i],
    ensures
        forall|i: int| i <= n ==> #[trigger] zero_run(s, i) == zero_run(t, i),
        start_codes_within(s, n) == start_codes_within(t, n),
    decreases n,
{
    if n > 0 {
        lemma_same_prefix(s, t, n - 1);
        assert(zero_run(s, n - 1) == zero_run(t, n - 1));
        assert(s[n - 1] == t[n - 1]);
        assert(zero_run(s, n) == zero_run(t, n));
    }
}

proof fn lemma_listed(s: Seq<u8>, p: int, n: int)
    requires
        closes_start_code(s, p + 2),
        p + 3 <= n <= s.len(),
    ensures
        start_codes_within(s, n).contains(p),
    decreases n,
{
    if n > p + 3 {
        lemma_listed(s, p, n - 1);
        let prev = start_codes_within(s, n - 1);
        let k = choose|k: int| 0 <= k < prev.len() && prev[k] == p;
        if closes_start_code(s, n - 1) {
            assert(start_codes_within(s, n)[k] == p);
        }
    } else {
        assert(start_codes_within(s, n) == start_codes_within(s, n - 1).push(p));
        assert(start_codes_within(s, n)[start_codes_within(s, n - 1).len() as int] == p);
    }
}

/// A start code written out as `00 00 01` is recognized where it stands.
pub proof fn lemma_written_start_code_is_found(s: Seq<u8>, p: int)
    requires
        start_code_written_at(s, p),
    ensures
        start_codes(s).contains(p),
{
    assert(zero_run(s, p + 1) >= 1);
    assert(zero_run(s, p + 2) >= 2);
    lemma_listed(s, p, s.len() as int);
}

/// A buffer whose only two start codes are written out at `p` and `q` holds
/// exactly one complete unit, from `p` up to `q`; a buffer with fewer than
/// two start codes holds none.
pub proof fn lemma_two_start_codes(s: Seq<u8>, p: int, q: int)
    requires
        p < q,
        start_code_written_at(s, p),
        start_code_written_at(s, q),
        start_codes(s).len() == 2,
    ensures
        first_unit(s) == Some((p, q)),
        forall|t: Seq<u8>| start_codes(t).len() < 2 ==> #[trigger] first_unit(t) is None,
{
    lemma_written_start_code_is_found(s, p);
    lemma_written_start_code_is_found(s, q);
    lemma_start_codes_in_bounds(s, s.len() as int);
    let c = start_codes(s);
    assert(c[0] < c[1]);
    assert(c[0] == p && c[1] == q);
}

proof fn lemma_one_zero_counted(s: Seq<u8>, i: int)
    requires
        zero_run(s, i) >= 1,
    ensures
        exists|j: int|
            0 <= j < i && s[j] == 0 && forall|k: int| j <= k < i ==> #[trigger] s[k] == 0 || s[k]
                == 1,
    decreases i,
{
    if s[i - 1] == 0 {
        assert(forall|k: int| i - 1 <= k < i ==> #[trigger] s[k] == 0 || s[k] == 1);
    } else {
        lemma_one_zero_counted(s, i - 1);
        let j = choose|j: int|
            0 <= j < i - 1 && s[j] == 0 && forall|k: int| j <= k < i - 1 ==> #[trigger] s[k] == 0
                || s[k] == 1;
        assert(forall|k: int| j <= k < i ==> #[trigger] s[k] == 0 || s[k] == 1);
    }
}

/// No false start codes: a one closes a start code only where two zero
/// bytes come before it with nothing but zeros and ones between the first
/// of them and the one. In particular two zeros followed by any other byte
/// never start a unit.
pub proof fn lemma_start_code_needs_two_zeros(s: Seq<u8>, i: int)
    requires
        closes_start_code(s, i),
    ensures
        exists|j1: int, j2: int|
            0 <= j1 < j2 < i && s[j1] == 0 && s[j2] == 0 && forall|k: int|
                j1 <= k < i ==> #[trigger] s[k] == 0 || s[k] == 1,
{
    lemma_two_zeros_counted(s, i);
}

proof fn lemma_two_zeros_counted(s: Seq<u8>, i: int)
    requires
        zero_run(s, i) >= 2,
    ensures
        exists|j1: int, j2: int|
            0 <= j1 < j2 < i && s[j1] == 0 && s[j2] == 0 && forall|k: int|
                j1 <= k < i ==> #[trigger] s[k] == 0 || s[k] == 1,
    decreases i,
{
    if s[i - 1] == 0 && zero_run(s, i - 1) == 1 {
        lemma_one_zero_counted(s, i - 1);
        let j1 = choose|j: int|
            0 <= j < i - 1 && s[j] == 0 && forall|k: int| j <= k < i - 1 ==> #[trigger] s[k] == 0
                || s[k] == 1;
        assert(forall|k: int| j1 <= k < i ==> #[trigger] s[k] == 0 || s[k] == 1);
        assert(0 <= j1 < i - 1 < i && s[j1] == 0 && s[i - 1] == 0);
    } else {
        lemma_two_zeros_counted(s, i - 1);
        let (j1, j2) = choose|j1: int, j2: int|
            0 <= j1 < j2 < i - 1 && s[j1] == 0 && s[j2] == 0 && forall|k: int|
                j1 <= k < i - 1 ==> #[trigger] s[k] == 0 || s[k] == 1;
        assert(forall|k: int| j1 <= k < i ==> #[trigger] s[k] == 0 || s[k] == 1);
    }
}

/// Finds the first two start codes in `data_stream` and returns their
/// positions: the first unit runs from the first up to the second.
pub fn check_for_valid_packet(data_stream: &[u8]) -> (r: Option<(usize, usize)>)
    ensures
        r is Some <==> first_unit(data_stream@) is Some,
        r matches Some((a, b)) ==> first_unit(data_stream@) == Some((a as int, b as int)),
{
    let mut zeros: usize = 0;
    let mut first: Option<usize> = None;
    let n = data_stream.len();
    let mut i: usize = 0;
    while i < n
        invariant
            n == data_stream@.len(),
            i <= n,
            zeros == zero_run(data_stream@, i as int),
            start_codes_within(data_stream@, i as int).len() <= 1,
            match first {
                Some(p) => start_codes_within(data_stream@, i as int).len() == 1
                    && start_codes_within(data_stream@, i as int)[0] == p,
                None => start_codes_within(data_stream@, i as int).len() == 0,
            },
        decreases n - i,
    {
        let ghost s = data_stream@;
        proof {
            lemma_zero_run_bound(s, i as int);
        }
        let byte = data_stream[i];
        if byte == 0 {
            zeros = zeros + 1;
        } else if byte == 1 {
            if zeros >= 2 {
                match first {
                    Some(p) => {
                        proof {
                            lemma_start_codes_prefix(s, i + 1, n as int);
                        }
                        return Some((p, i - 2));
                    },
                    None => {
                        first = Some(i - 2);
                    },
                }
            }
        } else {
            zeros = 0;
        }
        i = i + 1;
    }
    None
}

/// Relies on openh264's `Decoder::decode`, which returns the latest picture
/// when the unit completes one (`Ok(None)` when it does not, `Err` on a
/// corrupt stream); on `YUVSource::dimensions` of that picture; and on
/// `DecodedYUV::write_rgba8`, which fills a buffer of exactly
/// `width * height * 4` bytes (it panics on any other length, so the buffer
/// is made that long; the decoder hands out I420 pictures, the one format
/// `write_rgba8` takes). The picture depends on everything the decoder was
/// fed before, so only the buffer's size is stated.
#[verifier::external_body]
fn decode_rgba(decoder: &mut openh264::decoder::Decoder, unit: &[u8]) -> (r: Option<(Vec<u8>, (usize, usize))>)
    ensures
        match r {
            Some((pixels, (w, h))) => pixels@.len() == w * h * 4,
            None => true,
        },
{
    match decoder.decode(unit) {
        Ok(Some(yuv)) => {
            let (w, h) = yuv.dimensions();
            let mut pixels = vec![0u8; w * h * 4];
            yuv.write_rgba8(&mut pixels);
            Some((pixels, (w, h)))
        },
        Ok(None) => None,
        Err(_) => None,
    }
}

/// Decodes one NAL unit into an RGBA picture and its `(width, height)`.
/// A unit that completes no picture and a unit that the decoder rejects
/// both give `Err(())`: the caller drops the unit either way.
pub fn h264_decode(frame_data: &[u8], decoder: &mut openh264::decoder::Decoder) -> (r: Result<
    (Vec<u8>, (usize, usize)),
    (),
>)
    ensures
        match r {
            Ok((pixels, (w, h))) => pixels@.len() == w * h * 4,
            Err(_) => true,
        },
{
    match decode_rgba(decoder, frame_data) {
        Some(picture) => Ok(picture),
        None => Err(()),
    }
}

} // verus!
