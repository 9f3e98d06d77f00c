//! Stream metadata reported by the media-probing tool, and the decoding of its
//! textual numeric fields.
use vstd::prelude::*;
use crate::pgm::is_digit;

verus! {

/// Why probing failed.
pub enum Error {
    /// The probing tool could not be run.
    ProcessError { message: String },
    /// The probing tool exited unsuccessfully; `status` is its exit code, if any.
    FfmpegError { command: String, status: Option<i32> },
    /// The tool's output is not the expected structured document.
    ParseProbeOutput { message: String },
    /// The duration field is not a decimal number of seconds.
    InvalidDuration,
    /// The bit-rate field is not a decimal number that fits 32 bits.
    InvalidBitrate,
}

/// One video stream as reported by the prober.
pub struct Stream {
    pub codec_name: String,
    pub width: u32,
    pub height: u32,
    /// Duration in microseconds.
    pub duration_us: u64,
    /// Bits per second.
    pub bitrate: u32,
}

/// The prober's report: the selected streams, the video stream first.
pub struct Specs {
    pub streams: Vec<Stream>,
}

impl Stream {
    /// A stream from the prober's fields, with duration and bit rate decoded from
    /// their decimal text; either one that does not decode is an error.
    pub fn from_fields(codec_name: String, width: u32, height: u32, duration: &[u8], bit_rate: &[u8]) -> (r: Result<Stream, Error>)
        ensures
            match (duration_us_of(duration@), bitrate_of(bit_rate@)) {
                (Some(d), Some(b)) if d <= u64::MAX => (r matches Ok(st) && st.codec_name == codec_name
                    && st.width == width && st.height == height && st.duration_us == d
                    && st.bitrate == b),
                (Some(d), _) if d <= u64::MAX => r matches Err(Error::InvalidBitrate),
                _ => r matches Err(Error::InvalidDuration),
            },
    {
        let duration_us = match parse_duration_us(duration) {
            Some(d) => d,
            None => {
                return Err(Error::InvalidDuration);
            },
        };
        let bitrate = match parse_bitrate(bit_rate) {
            Some(b) => b,
            None => {
                return Err(Error::InvalidBitrate);
            },
        };
        Ok(Stream { codec_name, width, height, duration_us, bitrate })
    }
}

pub open spec fn all_digits(s: Seq<u8>) -> bool {
    forall|i: int| 0 <= i < s.len() ==> is_digit(#[trigger] s[i])
}

/// The value of a string of decimal digits (0 for the empty string).
pub open spec fn digits_value(s: Seq<u8>) -> nat
    decreases s.len(),
{
    if s.len() == 0 {
        0
    } else {
        digits_value(s.drop_last()) * 10 + (s.last() - 48) as nat
    }
}

/// The length of the run of digits that starts `s`.
pub open spec fn lead_digits(s: Seq<u8>) -> nat
    decreases s.len(),
{
    if s.len() > 0 && is_digit(s[0]) {
        1 + lead_digits(s.drop_first())
    } else {
        0
    }
}

/// The first six fraction digits, padded with zeros.
pub open spec fn six_digits(f: Seq<u8>) -> Seq<u8> {
    if f.len() >= 6 {
        f.take(6)
    } else {
        f + Seq::new((6 - f.len()) as nat, |i: int| 48u8)
    }
}

/// A duration written as decimal seconds (`150`, `150.04`, `.5`), in whole
/// microseconds, digits past the sixth decimal dropped; `None` for any other text.
pub open spec fn duration_us_of(s: Seq<u8>) -> Option<nat> {
    let k = lead_digits(s);
    let whole = digits_value(s.take(k as int));
    let rest = s.skip(k as int);
    if rest.len() == 0 {
        if k > 0 {
            Some(whole * 1_000_000)
        } else {
            None
        }
    } else if rest[0] == 46u8 && all_digits(rest.skip(1)) && (k > 0 || rest.len() > 1) {
        Some(whole * 1_000_000 + digits_value(six_digits(rest.skip(1))))
    } else {
        None
    }
}

/// A bit rate written as decimal digits that fits 32 bits.
pub open spec fn bitrate_of(s: Seq<u8>) -> Option<nat> {
    if s.len() > 0 && all_digits(s) && digits_value(s) <= u32::MAX {
        Some(digits_value(s))
    } else {
        None
    }
}

proof fn lemma_lead_digits(s: Seq<u8>, i: int)
    requires
        0 <= i <= s.len(),
        all_digits(s.take(i)),
        i == s.len() || !is_digit(s[i]),
    ensures
        lead_digits(s) == i,
    decreases i,
{
    if i > 0 {
        assert(is_digit(s.take(i)[0]));
        let t = s.drop_first();
        assert forall|j: int| 0 <= j < i - 1 implies is_digit(#[trigger] t.take(i - 1)[j]) by {
            assert(s.take(i)[j + 1] == t.take(i - 1)[j]);
        }
        if i < s.len() {
            assert(t[i - 1] == s[i]);
        }
        lemma_lead_digits(t, i - 1);
    }
}

/// The value of the digits `s[start..end]`, if it fits 64 bits.
pub(crate) fn digits_u64(s: &[u8], start: usize, end: usize) -> (r: Option<u64>)
    requires
        start <= end <= s@.len(),
        all_digits(s@.subrange(start as int, end as int)),
    ensures
        r == (if digits_value(s@.subrange(start as int, end as int)) <= u64::MAX {
            Some(digits_value(s@.subrange(start as int, end as int)) as u64)
        } else {
            None::<u64>
        }),
{
    let mut v: u64 = 0;
    let mut i: usize = start;
    assert(s@.subrange(start as int, start as int) =~= Seq::<u8>::empty());
    while i < end
        invariant
            start <= i <= end <= s@.len(),
            all_digits(s@.subrange(start as int, end as int)),
            v == digits_value(s@.subrange(start as int, i as int)),
        decreases end - i,
    {
        let ghost part = s@.subrange(start as int, (i + 1) as int);
        assert(part.drop_last() =~= s@.subrange(start as int, i as int));
        assert(s@.subrange(start as int, end as int)[i - start] == s@[i as int]);
        let d: u8 = s[i] - 48u8;
        if v > 1844674407370955161 || (v == 1844674407370955161 && d > 5) {
            proof {
                lemma_digits_value_grows(s@.subrange(start as int, end as int), (i + 1 - start) as int);
                assert(s@.subrange(start as int, end as int).take((i + 1 - start) as int) =~= part);
            }
            return None;
        }
        v = v * 10 + d as u64;
        i = i + 1;
    }
    Some(v)
}

/// A longer prefix of a digit string is worth at least as much.
proof fn lemma_digits_value_grows(s: Seq<u8>, k: int)
    requires
        0 <= k <= s.len(),
        all_digits(s),
    ensures
        digits_value(s.take(k)) <= digits_value(s),
    decreases s.len(),
{
    if k < s.len() {
        lemma_digits_value_grows(s.drop_last(), k);
        assert(s.drop_last().take(k) =~= s.take(k));
        assert(is_digit(s[s.len() - 1]));
    } else {
        assert(s.take(k) =~= s);
    }
}

/// Decodes a duration written as decimal seconds into microseconds.
pub fn parse_duration_us(text: &[u8]) -> (r: Option<u64>)
    ensures
        r == (match duration_us_of(text@) {
            Some(v) => if v <= u64::MAX {
                Some(v as u64)
            } else {
                None::<u64>
            },
            None => None::<u64>,
        }),
{
    let n: usize = text.len();
    let mut k: usize = 0;
    while k < n && is_digit_byte(text[k])
        invariant
            k <= n == text@.len(),
            all_digits(text@.take(k as int)),
        decreases n - k,
    {
        assert(text@.take(k + 1) =~= text@.take(k as int).push(text@[k as int]));
        k = k + 1;
    }
    proof {
        lemma_lead_digits(text@, k as int);
        assert(text@.take(k as int) =~= text@.subrange(0, k as int));
    }
    let ghost rest = text@.skip(k as int);
    let whole = match digits_u64(text, 0, k) {
        Some(v) => v,
        None => {
            proof {
                lemma_duration_large(text@);
            }
            return None;
        },
    };
    if whole > 18446744073709 {
        proof {
            lemma_duration_large(text@);
        }
        return None;
    }
    let base: u64 = whole * 1_000_000;
    if k == n {
        if k > 0 {
            return Some(base);
        } else {
            return None;
        }
    }
    assert(rest[0] == text@[k as int]);
    if text[k] != 46u8 || (k == 0 && n == 1) {
        return None;
    }
    let mut j: usize = k + 1;
    while j < n && is_digit_byte(text[j])
        invariant
            k < n,
            k + 1 <= j <= n == text@.len(),
            all_digits(text@.subrange(k + 1, j as int)),
        decreases n - j,
    {
        assert(text@.subrange(k + 1, j + 1) =~= text@.subrange(k + 1, j as int).push(text@[j as int]));
        j = j + 1;
    }
    let ghost frac = rest.skip(1);
    assert(frac =~= text@.subrange(k + 1, n as int));
    if j < n {
        assert(frac[j - k - 1] == text@[j as int]);
        return None;
    }
    assert(text@.subrange(k + 1, j as int) =~= frac);
    let ghost six = six_digits(frac);
    let mut m: u64 = 0;
    let mut p: usize = 0;
    assert(six.take(0) =~= Seq::<u8>::empty());
    while p < 6
        invariant
            p <= 6,
            k < n == text@.len(),
            frac =~= text@.subrange(k + 1, n as int),
            all_digits(frac),
            six == six_digits(frac),
            m == digits_value(six.take(p as int)),
            m < pow10_small(p as nat),
        decreases 6 - p,
    {
        let d: u8 = if p < n - k - 1 {
            assert(frac[p as int] == text@[k + 1 + p]);
            text[k + 1 + p] - 48u8
        } else {
            0u8
        };
        assert(six.take(p + 1).drop_last() =~= six.take(p as int));
        proof {
            if p < frac.len() {
                assert(six[p as int] == frac[p as int]);
            } else {
                assert(six[p as int] == 48u8);
            }
        }
        assert(six[p as int] == 48 + d);
        proof {
            reveal_with_fuel(pow10_small, 8);
        }
        m = m * 10 + d as u64;
        p = p + 1;
    }
    assert(six.take(6) =~= six);
    proof {
        reveal_with_fuel(pow10_small, 8);
    }
    if m > 18446744073709551615 - base {
        return None;
    }
    Some(base + m)
}

pub open spec fn pow10_small(p: nat) -> nat
    decreases p,
{
    if p == 0 {
        1
    } else {
        10 * pow10_small((p - 1) as nat)
    }
}

proof fn lemma_duration_large(s: Seq<u8>)
    requires
        digits_value(s.take(lead_digits(s) as int)) > 18446744073709,
    ensures
        match duration_us_of(s) {
            Some(v) => v > u64::MAX,
            None => true,
        },
{
}

pub(crate) fn is_digit_byte(b: u8) -> (r: bool)
    ensures
        r == is_digit(b),
{
    48u8 <= b && b <= 57u8
}

/// Decodes a bit rate written as decimal digits.
pub fn parse_bitrate(text: &[u8]) -> (r: Option<u32>)
    ensures
        r == (match bitrate_of(text@) {
            Some(v) => Some(v as u32),
            None => None::<u32>,
        }),
{
    let n: usize = text.len();
    let mut k: usize = 0;
    while k < n
        invariant
            k <= n == text@.len(),
            all_digits(text@.take(k as int)),
        decreases n - k,
    {
        if !is_digit_byte(text[k]) {
            return None;
        }
        assert(text@.take(k + 1) =~= text@.take(k as int).push(text@[k as int]));
        k = k + 1;
    }
    assert(text@.take(n as int) =~= text@);
    assert(text@.subrange(0, n as int) =~= text@);
    if n == 0 {
        return None;
    }
    match digits_u64(text, 0, n) {
        Some(v) => if v <= 4294967295 {
            Some(v as u32)
        } else {
            None
        },
        None => None,
    }
}

} // verus!
