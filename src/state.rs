//! Decoding of the drone's state records.

use vstd::prelude::*;
use vstd::slice::slice_subrange;

verus! {

/// `s` cut at every `sep`: one more piece than there are separators.
pub open spec fn split_on(s: Seq<char>, sep: char) -> Seq<Seq<char>>
    decreases s.len(),
{
    if s.len() == 0 {
        seq![Seq::empty()]
    } else {
        let pieces = split_on(s.drop_last(), sep);
        if s.last() == sep {
            pieces.push(Seq::empty())
        } else {
            pieces.update(pieces.len() - 1, pieces.last().push(s.last()))
        }
    }
}

/// The characters a numeric field keeps: ASCII digits, `-`, `.` and `,`.
pub open spec fn is_numeric_char(c: char) -> bool {
    ('0' <= c && c <= '9') || c == '-' || c == '.' || c == ','
}

/// `f` with every other character removed.
pub open spec fn numeric_part(f: Seq<char>) -> Seq<char> {
    f.filter(|c: char| is_numeric_char(c))
}

/// The fields of a record: the text split at `;`, each field stripped to
/// its numeric characters.
pub open spec fn record_fields(s: Seq<char>) -> Seq<Seq<char>> {
    split_on(s, ';').map_values(|f: Seq<char>| numeric_part(f))
}

pub open spec fn is_digit_char(c: char) -> bool {
    '0' <= c && c <= '9'
}

pub open spec fn all_digits(t: Seq<char>) -> bool {
    forall|i: int| 0 <= i < t.len() ==> is_digit_char(#[trigger] t[i])
}

pub open spec fn digit_of(c: char) -> nat {
    (c as u32 - '0' as u32) as nat
}

/// The number that a run of decimal digits spells.
pub open spec fn digits_value(t: Seq<char>) -> nat
    decreases t.len(),
{
    if t.len() == 0 {
        0
    } else {
        10 * digits_value(t.drop_last()) + digit_of(t.last())
    }
}

/// The value of a non-empty run of digits.
pub open spec fn unsigned_text(t: Seq<char>) -> Option<nat> {
    if t.len() > 0 && all_digits(t) {
        Some(digits_value(t))
    } else {
        None
    }
}

/// An integer as `str::parse::<i32>` reads text of digits and signs: an
/// optional leading `-`, then one or more digits, in the range of `i32`.
pub open spec fn i32_text(t: Seq<char>) -> Option<int> {
    if t.len() > 0 && t[0] == '-' {
        match unsigned_text(t.drop_first()) {
            Some(v) => if -v >= i32::MIN {
                Some(-v)
            } else {
                None
            },
            None => None,
        }
    } else {
        match unsigned_text(t) {
            Some(v) => if v <= i32::MAX {
                Some(v as int)
            } else {
                None
            },
            None => None,
        }
    }
}

/// An unsigned integer: one or more digits, in the range of `u32`.
pub open spec fn u32_text(t: Seq<char>) -> Option<nat> {
    match unsigned_text(t) {
        Some(v) => if v <= u32::MAX {
            Some(v)
        } else {
            None
        },
        None => None,
    }
}

proof fn lemma_digits_value_grows(t: Seq<char>, n: int)
    requires
        0 <= n <= t.len(),
    ensures
        digits_value(t.subrange(0, n)) <= digits_value(t),
    decreases t.len() - n,
{
    if n < t.len() {
        let longer = t.subrange(0, n + 1);
        assert(longer.drop_last() == t.subrange(0, n));
        lemma_digits_value_grows(t, n + 1);
    } else {
        assert(t.subrange(0, n) == t);
    }
}

/// The value of the digits `t[from..]` when there is at least one, all are
/// digits, and the value is at most `cap`; `None` otherwise.
fn digits_upto(t: &[char], from: usize, cap: u64) -> (r: Option<u64>)
    requires
        from <= t@.len(),
        cap <= u32::MAX + 1,
    ensures
        ({
            let u = t@.subrange(from as int, t@.len() as int);
            match unsigned_text(u) {
                Some(v) => if v <= cap {
                    r == Some(v as u64)
                } else {
                    r is None
                },
                None => r is None,
            }
        }),
{
    let n = t.len();
    let ghost u = t@.subrange(from as int, n as int);
    let mut acc: u64 = 0;
    let mut i: usize = from;
    while i < n
        invariant
            n == t@.len(),
            from <= i <= n,
            cap <= u32::MAX + 1,
            u == t@.subrange(from as int, n as int),
            u.subrange(0, i - from) == t@.subrange(from as int, i as int),
            all_digits(u.subrange(0, i - from)),
            acc == digits_value(u.subrange(0, i - from)),
            acc <= cap,
        decreases n - i,
    {
        let c = t[i];
        let ghost k = i - from;
        proof {
            assert(u.subrange(0, k + 1).drop_last() == u.subrange(0, k));
            assert(u.subrange(0, k + 1).last() == c);
        }
        if !('0' <= c && c <= '9') {
            assert(!all_digits(u));
            return None;
        }
        acc = acc * 10 + (c as u32 - '0' as u32) as u64;
        i = i + 1;
        assert(u.subrange(0, i - from) == t@.subrange(from as int, i as int));
        assert(all_digits(u.subrange(0, i - from)));
        if acc > cap {
            proof {
                if all_digits(u) {
                    lemma_digits_value_grows(u, i - from);
                }
            }
            return None;
        }
    }
    assert(u.subrange(0, n - from) == u);
    if i == from {
        None
    } else {
        Some(acc)
    }
}

/// Reads an `i32` from digits and an optional leading `-`.
pub fn parse_i32(t: &[char]) -> (r: Option<i32>)
    ensures
        match i32_text(t@) {
            Some(v) => r == Some(v as i32),
            None => r is None,
        },
{
    if t.len() > 0 && t[0] == '-' {
        let ghost body = t@.drop_first();
        assert(t@.subrange(1, t@.len() as int) == body);
        match digits_upto(t, 1, 2147483648) {
            Some(v) => Some((0 - v as i64) as i32),
            None => None,
        }
    } else {
        assert(t@.subrange(0, t@.len() as int) == t@);
        match digits_upto(t, 0, 2147483647) {
            Some(v) => Some(v as i32),
            None => None,
        }
    }
}

/// Reads a `u32` from digits alone.
pub fn parse_u32(t: &[char]) -> (r: Option<u32>)
    ensures
        match u32_text(t@) {
            Some(v) => r == Some(v as u32),
            None => r is None,
        },
{
    assert(t@.subrange(0, t@.len() as int) == t@);
    match digits_upto(t, 0, 4294967295) {
        Some(v) => Some(v as u32),
        None => None,
    }
}

/// A decimal number as written: its sign, and the values of the digits
/// before and after the point.
#[derive(Clone, Debug, PartialEq, Eq)]
pub struct Decimal {
    pub negative: bool,
    pub whole: Vec<u8>,
    pub fraction: Vec<u8>,
}

pub open spec fn digit_values(t: Seq<char>) -> Seq<u8> {
    t.map_values(|c: char| digit_of(c) as u8)
}

/// A decimal number as `str::parse::<f64>` reads text of digits, signs and
/// points: an optional leading `-`, then digits with at most one point
/// among them, and at least one digit. The result is the sign and the
/// digit values on either side of the point.
pub open spec fn decimal_text(t: Seq<char>) -> Option<(bool, Seq<u8>, Seq<u8>)> {
    let negative = t.len() > 0 && t[0] == '-';
    let body = if negative {
        t.drop_first()
    } else {
        t
    };
    let parts = split_on(body, '.');
    let whole = parts[0];
    let fraction = if parts.len() == 2 {
        parts[1]
    } else {
        Seq::empty()
    };
    if parts.len() <= 2 && all_digits(whole) && all_digits(fraction) && whole.len()
        + fraction.len() > 0 {
        Some((negative, digit_values(whole), digit_values(fraction)))
    } else {
        None
    }
}

/// `d` is the number that `t` spells.
pub open spec fn decimal_matches(d: Decimal, t: Seq<char>) -> bool {
    match decimal_text(t) {
        Some((negative, whole, fraction)) => d.negative == negative && d.whole@ == whole
            && d.fraction@ == fraction,
        None => false,
    }
}

fn digit_values_of(t: &[char]) -> (r: Option<Vec<u8>>)
    ensures
        all_digits(t@) ==> r is Some && r->0@ == digit_values(t@),
        !all_digits(t@) ==> r is None,
{
    let mut out: Vec<u8> = Vec::new();
    let n = t.len();
    let mut i: usize = 0;
    while i < n
        invariant
            n == t@.len(),
            i <= n,
            all_digits(t@.subrange(0, i as int)),
            out@ == digit_values(t@.subrange(0, i as int)),
        decreases n - i,
    {
        let c = t[i];
        if !('0' <= c && c <= '9') {
            assert(!is_digit_char(t@[i as int]));
            return None;
        }
        out.push((c as u32 - '0' as u32) as u8);
        i = i + 1;
        assert(t@.subrange(0, i as int) == t@.subrange(0, i - 1).push(c));
        assert(out@ =~= digit_values(t@.subrange(0, i as int)));
    }
    assert(t@.subrange(0, n as int) == t@);
    Some(out)
}

/// Reads a decimal number from digits, an optional leading `-` and at most
/// one point.
pub fn parse_decimal(t: &[char]) -> (r: Option<Decimal>)
    ensures
        match decimal_text(t@) {
            Some(_) => r is Some && decimal_matches(r->0, t@),
            None => r is None,
        },
{
    let negative = t.len() > 0 && t[0] == '-';
    let body = if negative {
        slice_subrange(t, 1, t.len())
    } else {
        t
    };
    assert(body@ == (if negative {
        t@.drop_first()
    } else {
        t@
    }));
    let parts = split_chars(body, '.');
    if parts.len() > 2 {
        return None;
    }
    let whole = match digit_values_of(parts[0].as_slice()) {
        Some(w) => w,
        None => return None,
    };
    let fraction = if parts.len() == 2 {
        match digit_values_of(parts[1].as_slice()) {
            Some(f) => f,
            None => return None,
        }
    } else {
        proof {
            assert(all_digits(Seq::<char>::empty()));
            assert(digit_values(Seq::<char>::empty()) == Seq::<u8>::empty());
        }
        Vec::new()
    };
    if whole.len() == 0 && fraction.len() == 0 {
        return None;
    }
    Some(Decimal { negative, whole, fraction })
}

/// Why a state record was rejected.
#[derive(Clone, Copy, Debug, PartialEq, Eq, Structural)]
pub enum TelemetryError {
    /// The record has fewer fields than the layout.
    MissingFields,
    /// The field at this position does not hold a number of its kind.
    MalformedField(usize),
}

/// The number of fields of a state record that are read.
pub const STATE_FIELDS: usize = 21;

/// Three integers separated by commas.
pub open spec fn triple_text(f: Seq<char>) -> bool {
    let parts = split_on(f, ',');
    parts.len() == 3 && forall|k: int| 0 <= k < 3 ==> (#[trigger] i32_text(parts[k])) is Some
}

/// Field `i` of a record holds a number of the kind its position calls for:
/// the attitude triple at 4, the battery (unsigned) at 15, decimals for the
/// barometer at 16 and the accelerations at 18 to 20, integers elsewhere.
pub open spec fn field_parses(i: int, f: Seq<char>) -> bool {
    if i == 4 {
        triple_text(f)
    } else if i == 15 {
        u32_text(f) is Some
    } else if i == 16 || 18 <= i <= 20 {
        decimal_text(f) is Some
    } else {
        i32_text(f) is Some
    }
}

pub open spec fn record_parses(f: Seq<Seq<char>>) -> bool {
    f.len() >= STATE_FIELDS && forall|i: int| 0 <= i < STATE_FIELDS ==> #[trigger] field_parses(i, f[i])
}

pub open spec fn int_field(f: Seq<char>) -> int {
    i32_text(f)->0
}

/// `st` holds the numbers that the fields `f` spell, in the record's layout:
/// `mid; x; y; z; mpry; pitch; roll; yaw; vgx; vgy; vgz; templ; temph; tof;
/// h; bat; baro; time; agx; agy; agz`.
pub open spec fn state_matches(st: TelloState, f: Seq<Seq<char>>) -> bool {
    &&& st.mid == int_field(f[0])
    &&& forall|k: int| 0 <= k < 3 ==> #[trigger] st.xyz@[k] == int_field(f[1 + k])
    &&& forall|k: int| 0 <= k < 3 ==> #[trigger] st.mpry@[k] == int_field(split_on(f[4], ',')[k])
    &&& st.pitch == int_field(f[5])
    &&& st.roll == int_field(f[6])
    &&& st.yaw == int_field(f[7])
    &&& forall|k: int| 0 <= k < 3 ==> #[trigger] st.vg@[k] == int_field(f[8 + k])
    &&& forall|k: int| 0 <= k < 2 ==> #[trigger] st.temp@[k] == int_field(f[11 + k])
    &&& st.tof == int_field(f[13])
    &&& st.h == int_field(f[14])
    &&& st.bat == u32_text(f[15])->0
    &&& decimal_matches(st.baro, f[16])
    &&& st.time == int_field(f[17])
    &&& forall|k: int| 0 <= k < 3 ==> decimal_matches(#[trigger] st.ag@[k], f[18 + k])
}

/// A snapshot of the scalars the drone reports.
#[derive(Clone, Debug, PartialEq, Eq)]
pub struct TelloState {
    pub mid: i32,
    pub xyz: [i32; 3],
    pub mpry: [i32; 3],
    pub pitch: i32,
    pub roll: i32,
    pub yaw: i32,
    pub vg: [i32; 3],
    pub temp: [i32; 2],
    pub tof: i32,
    pub h: i32,
    pub bat: u32,
    pub baro: Decimal,
    pub time: i32,
    pub ag: [Decimal; 3],
}

fn parse_triple(f: &[char]) -> (r: Option<[i32; 3]>)
    ensures
        triple_text(f@) <==> r is Some,
        r matches Some(t) ==> forall|k: int|
            0 <= k < 3 ==> #[trigger] t@[k] == int_field(split_on(f@, ',')[k]),
{
    let parts = split_chars(f, ',');
    if parts.len() != 3 {
        return None;
    }
    let a = parse_i32(parts[0].as_slice());
    let b = parse_i32(parts[1].as_slice());
    let c = parse_i32(parts[2].as_slice());
    match (a, b, c) {
        (Some(a), Some(b), Some(c)) => {
            let t = [a, b, c];
            assert(t@ == seq![a, b, c]);
            Some(t)
        },
        _ => {
            let ghost parts_view = split_on(f@, ',');
            assert(!(i32_text(parts_view[0]) is Some && i32_text(parts_view[1]) is Some && i32_text(
                parts_view[2],
            ) is Some));
            None
        },
    }
}

fn field_is_valid(i: usize, f: &[char]) -> (b: bool)
    ensures
        b == field_parses(i as int, f@),
{
    if i == 4 {
        parse_triple(f).is_some()
    } else if i == 15 {
        parse_u32(f).is_some()
    } else if i == 16 || (18 <= i && i <= 20) {
        parse_decimal(f).is_some()
    } else {
        parse_i32(f).is_some()
    }
}

fn int_at(fields: &Vec<Vec<char>>, k: usize) -> (v: i32)
    requires
        k < fields@.len(),
        k != 4 && k != 15 && k != 16 && !(18 <= k <= 20),
        field_parses(k as int, fields@[k as int]@),
    ensures
        v == int_field(fields@[k as int]@),
{
    parse_i32(fields[k].as_slice()).unwrap()
}

fn decimal_at(fields: &Vec<Vec<char>>, k: usize) -> (d: Decimal)
    requires
        k < fields@.len(),
        k == 16 || 18 <= k <= 20,
        field_parses(k as int, fields@[k as int]@),
    ensures
        decimal_matches(d, fields@[k as int]@),
{
    parse_decimal(fields[k].as_slice()).unwrap()
}

impl TelloState {
    /// Parses a state record: fields separated by `;`, each stripped to its
    /// digits, signs, points and commas, then read by position. A record
    /// with fewer fields than the layout, or with a field that does not hold
    /// a number of its kind, is rejected whole; the first such field is
    /// named. Fields past the layout are ignored.
    pub fn new(state_str: &str) -> (r: Result<TelloState, TelemetryError>)
        ensures
            ({
                let f = record_fields(state_str@);
                &&& (r is Ok <==> record_parses(f))
                &&& (r matches Ok(st) ==> state_matches(st, f))
                &&& (r == Err::<TelloState, TelemetryError>(TelemetryError::MissingFields) <==> f.len()
                    < STATE_FIELDS)
                &&& (r matches Err(TelemetryError::MalformedField(i)) ==> {
                    &&& f.len() >= STATE_FIELDS
                    &&& i < STATE_FIELDS
                    &&& !field_parses(i as int, f[i as int])
                    &&& forall|j: int| 0 <= j < i ==> #[trigger] field_parses(j, f[j])
                })
            }),
    {
        let chars = chars_of(state_str);
        let raw = split_chars(chars.as_slice(), ';');
        let ghost f = record_fields(state_str@);
        assert(f.len() == raw@.len());
        if raw.len() < STATE_FIELDS {
            return Err(TelemetryError::MissingFields);
        }
        let mut fields: Vec<Vec<char>> = Vec::new();
        let mut i: usize = 0;
        while i < STATE_FIELDS
            invariant
                i <= STATE_FIELDS,
                f == record_fields(state_str@),
                f.len() == raw@.len(),
                raw@.len() >= STATE_FIELDS,
                forall|k: int| 0 <= k < raw@.len() ==> #[trigger] f[k] == numeric_part(raw@[k]@),
                fields@.len() == i,
                forall|k: int| 0 <= k < i ==> #[trigger] fields@[k]@ == f[k],
                forall|k: int| 0 <= k < i ==> #[trigger] field_parses(k, f[k]),
                forall|k: int| 0 <= k < i ==> #[trigger] field_parses(k, fields@[k]@),
            decreases STATE_FIELDS - i,
        {
            let field = keep_numeric(raw[i].as_slice());
            assert(field@ == f[i as int]);
            if !field_is_valid(i, field.as_slice()) {
                return Err(TelemetryError::MalformedField(i));
            }
            fields.push(field);
            i = i + 1;
        }
        assert(field_parses(4, fields@[4]@));
        assert(field_parses(15, fields@[15]@));
        let st = TelloState {
            mid: int_at(&fields, 0),
            xyz: [
                int_at(&fields, 1),
                int_at(&fields, 2),
                int_at(&fields, 3),
            ],
            mpry: parse_triple(fields[4].as_slice()).unwrap(),
            pitch: int_at(&fields, 5),
            roll: int_at(&fields, 6),
            yaw: int_at(&fields, 7),
            vg: [
                int_at(&fields, 8),
                int_at(&fields, 9),
                int_at(&fields, 10),
            ],
            temp: [
                int_at(&fields, 11),
                int_at(&fields, 12),
            ],
            tof: int_at(&fields, 13),
            h: int_at(&fields, 14),
            bat: parse_u32(fields[15].as_slice()).unwrap(),
            baro: decimal_at(&fields, 16),
            time: int_at(&fields, 17),
            ag: [
                decimal_at(&fields, 18),
                decimal_at(&fields, 19),
                decimal_at(&fields, 20),
            ],
        };
        Ok(st)
    }
}

fn split_chars(t: &[char], sep: char) -> (r: Vec<Vec<char>>)
    ensures
        r@.len() >= 1,
        r@.len() == split_on(t@, sep).len(),
        forall|k: int| 0 <= k < r@.len() ==> #[trigger] r@[k]@ == split_on(t@, sep)[k],
{
    let mut done: Vec<Vec<char>> = Vec::new();
    let mut current: Vec<char> = Vec::new();
    let n = t.len();
    let mut i: usize = 0;
    while i < n
        invariant
            n == t@.len(),
            i <= n,
            done@.len() + 1 == split_on(t@.subrange(0, i as int), sep).len(),
            forall|k: int|
                0 <= k < done@.len() ==> #[trigger] done@[k]@ == split_on(
                    t@.subrange(0, i as int),
                    sep,
                )[k],
            current@ == split_on(t@.subrange(0, i as int), sep).last(),
        decreases n - i,
    {
        let c = t[i];
        proof {
            assert(t@.subrange(0, i + 1).drop_last() == t@.subrange(0, i as int));
            assert(t@.subrange(0, i + 1).last() == c);
        }
        if c == sep {
            let piece = current;
            current = Vec::new();
            done.push(piece);
        } else {
            current.push(c);
        }
        i = i + 1;
    }
    assert(t@.subrange(0, n as int) == t@);
    done.push(current);
    done
}

fn keep_numeric(f: &[char]) -> (r: Vec<char>)
    ensures
        r@ == numeric_part(f@),
{
    let mut out: Vec<char> = Vec::new();
    let n = f.len();
    let mut i: usize = 0;
    while i < n
        invariant
            n == f@.len(),
            i <= n,
            out@ == numeric_part(f@.subrange(0, i as int)),
        decreases n - i,
    {
        let c = f[i];
        proof {
            reveal(Seq::filter);
            assert(f@.subrange(0, i + 1).drop_last() == f@.subrange(0, i as int));
        }
        if ('0' <= c && c <= '9') || c == '-' || c == '.' || c == ',' {
            out.push(c);
        }
        i = i + 1;
    }
    assert(f@.subrange(0, n as int) == f@);
    out
}

fn chars_of(s: &str) -> (r: Vec<char>)
    ensures
        r@ == s@,
{
    let mut out: Vec<char> = Vec::new();
    for c in it: s.chars()
        invariant
            it.seq() == s@,
            out@ == s@.subrange(0, it.index() as int),
    {
        out.push(c);
    }
    out
}

} // verus!
