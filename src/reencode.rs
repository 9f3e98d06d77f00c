//! Orchestration of the transcoding engine: the arguments it is launched with,
//! the reading of its progress stream, and the meaning of its exit status.
use vstd::prelude::*;
use crate::filter::trunc_div;
use crate::pgm::nat_decimal;
use crate::probe::{all_digits, digits_u64, digits_value, is_digit_byte};

verus! {

/// One run of the transcoding engine.
pub struct Config {
    pub input: String,
    pub output: String,
    pub x_filt: String,
    pub y_filt: String,
    pub codec_name: String,
    /// Bits per second.
    pub bitrate: u32,
    /// Duration of the input in microseconds.
    pub duration_us: u64,
}

/// Why transcoding failed.
pub enum Error {
    /// The engine could not be launched or waited for.
    ProcessError { message: String },
    /// The engine exited unsuccessfully; `status` is its exit code, if any.
    FfmpegError { status: Option<i32> },
}

pub open spec fn ascii_chars(b: Seq<u8>) -> Seq<char> {
    b.map_values(|c: u8| c as char)
}

/// Relies on `u32::to_string`: the decimal digits of the value.
#[verifier::external_body]
fn decimal_string(v: u32) -> (r: String)
    ensures
        r@ == ascii_chars(nat_decimal(v as nat)),
{
    v.to_string()
}

/// The engine's arguments: the input and the two maps as image pipes, the
/// remap filter chain, the codec and bit rate, audio copied, then the output.
pub open spec fn engine_args_of(c: Config) -> Seq<Seq<char>> {
    seq![
        "-hide_banner"@,
        "-progress"@,
        "pipe:1"@,
        "-loglevel"@,
        "panic"@,
        "-y"@,
        "-re"@,
        "-i"@,
        c.input@,
        "-f"@,
        "pgm_pipe"@,
        "-i"@,
        c.x_filt@,
        "-f"@,
        "pgm_pipe"@,
        "-i"@,
        c.y_filt@,
        "-filter_complex"@,
        "remap,format=yuv444p,format=yuv420p"@,
        "-c:v"@,
        c.codec_name@,
        "-b:v"@,
        ascii_chars(nat_decimal(c.bitrate as nat)),
        "-c:a"@,
        "copy"@,
        "-x265-params"@,
        "log-level=error"@,
        c.output@,
    ]
}

/// The arguments the engine is launched with.
pub fn engine_args(config: &Config) -> (r: Vec<String>)
    ensures
        r@.map_values(|s: String| s@) == engine_args_of(*config),
{
    let mut v: Vec<String> = Vec::new();
    v.push("-hide_banner".to_owned());
    v.push("-progress".to_owned());
    v.push("pipe:1".to_owned());
    v.push("-loglevel".to_owned());
    v.push("panic".to_owned());
    v.push("-y".to_owned());
    v.push("-re".to_owned());
    v.push("-i".to_owned());
    v.push(config.input.clone());
    v.push("-f".to_owned());
    v.push("pgm_pipe".to_owned());
    v.push("-i".to_owned());
    v.push(config.x_filt.clone());
    v.push("-f".to_owned());
    v.push("pgm_pipe".to_owned());
    v.push("-i".to_owned());
    v.push(config.y_filt.clone());
    v.push("-filter_complex".to_owned());
    v.push("remap,format=yuv444p,format=yuv420p".to_owned());
    v.push("-c:v".to_owned());
    v.push(config.codec_name.clone());
    v.push("-b:v".to_owned());
    v.push(decimal_string(config.bitrate));
    v.push("-c:a".to_owned());
    v.push("copy".to_owned());
    v.push("-x265-params".to_owned());
    v.push("log-level=error".to_owned());
    v.push(config.output.clone());
    assert(v@.map_values(|s: String| s@) =~= engine_args_of(*config));
    v
}

/// `out_time_ms=`, the key of the engine's elapsed-time progress lines.
pub open spec fn progress_key() -> Seq<u8> {
    seq![111u8, 117u8, 116u8, 95u8, 116u8, 105u8, 109u8, 101u8, 95u8, 109u8, 115u8, 61u8]
}

/// An integer written as decimal digits with an optional leading `-`.
pub open spec fn signed_decimal_of(s: Seq<u8>) -> Option<int> {
    if s.len() > 1 && s[0] == 45u8 && all_digits(s.skip(1)) {
        Some(-digits_value(s.skip(1)))
    } else if s.len() > 0 && all_digits(s) {
        Some(digits_value(s) as int)
    } else {
        None
    }
}

/// The elapsed microseconds a progress value states; text that is not a
/// number of at most 64 bits in magnitude reads as 0.
pub open spec fn elapsed_us_of(s: Seq<u8>) -> int {
    match signed_decimal_of(s) {
        Some(v) => if -0xffff_ffff_ffff_ffff <= v <= 0xffff_ffff_ffff_ffff {
            v
        } else {
            0
        },
        None => 0,
    }
}

/// Progress in hundredths of a percent: `elapsed_us / (duration_s * 10_000)`
/// percent, that is `elapsed_us * 10_000 / duration_us` hundredths, rounded
/// toward zero; 0 when the duration is 0.
pub open spec fn progress_hundredths_of(elapsed_us: int, duration_us: int) -> int {
    if duration_us == 0 {
        0
    } else {
        trunc_div(elapsed_us * 10_000, duration_us)
    }
}

/// What one line of the engine's progress stream reports: `None` for a line
/// without the elapsed-time key, else the progress in hundredths of a percent.
pub open spec fn line_progress(line: Seq<u8>, duration_us: int) -> Option<int> {
    if line.len() >= 12 && line.take(12) == progress_key() {
        Some(progress_hundredths_of(elapsed_us_of(line.skip(12)), duration_us))
    } else {
        None
    }
}

fn parse_elapsed(s: &[u8], start: usize) -> (r: i128)
    requires
        start <= s@.len(),
    ensures
        r == elapsed_us_of(s@.skip(start as int)),
{
    let n: usize = s.len();
    let ghost t = s@.skip(start as int);
    if start == n {
        return 0;
    }
    let neg: bool = s[start] == 45u8;
    let first: usize = if neg {
        start + 1
    } else {
        start
    };
    if first == n {
        return 0;
    }
    let mut i: usize = first;
    while i < n
        invariant
            first <= i <= n == s@.len(),
            start < n,
            t == s@.skip(start as int),
            neg == (s@[start as int] == 45u8),
            first == (if neg {
                start + 1
            } else {
                start as int
            }),
            all_digits(s@.subrange(first as int, i as int)),
        decreases n - i,
    {
        if !is_digit_byte(s[i]) {
            proof {
                if neg {
                    assert(t.skip(1)[i - first] == s@[i as int]);
                }
                assert(t[i - start] == s@[i as int]);
            }
            return 0;
        }
        assert(s@.subrange(first as int, i + 1) =~= s@.subrange(first as int, i as int).push(
            s@[i as int],
        ));
        i = i + 1;
    }
    if neg {
        assert(t.skip(1) =~= s@.subrange(first as int, n as int));
    } else {
        assert(t =~= s@.subrange(first as int, n as int));
        assert(t[0] == s@[start as int]);
    }
    match digits_u64(s, first, n) {
        Some(v) => if neg {
            -(v as i128)
        } else {
            v as i128
        },
        None => 0,
    }
}

/// Reads one line of the engine's progress stream. A line that starts with
/// `out_time_ms=` gives the progress in hundredths of a percent; a value that
/// is not a number counts as 0. Other lines give `None`.
pub fn progress_hundredths(line: &[u8], duration_us: u64) -> (r: Option<i128>)
    ensures
        r == (match line_progress(line@, duration_us as int) {
            Some(p) => Some(p as i128),
            None => None::<i128>,
        }),
{
    let key: Vec<u8> = vec![111u8, 117u8, 116u8, 95u8, 116u8, 105u8, 109u8, 101u8, 95u8, 109u8, 115u8, 61u8];
    assert(key@ =~= progress_key());
    if line.len() < 12 {
        return None;
    }
    let mut i: usize = 0;
    while i < 12
        invariant
            i <= 12 <= line@.len(),
            key@ == progress_key(),
            line@.take(i as int) == key@.take(i as int),
        decreases 12 - i,
    {
        if line[i] != key[i] {
            assert(line@.take(12)[i as int] != progress_key()[i as int]);
            return None;
        }
        assert(line@.take(i + 1) =~= line@.take(i as int).push(line@[i as int]));
        assert(key@.take(i + 1) =~= key@.take(i as int).push(key@[i as int]));
        i = i + 1;
    }
    assert(key@.take(12) =~= key@);
    let elapsed: i128 = parse_elapsed(line, 12);
    if duration_us == 0 {
        return Some(0);
    }
    let scaled: i128 = elapsed * 10_000;
    let d: i128 = duration_us as i128;
    let q: i128 = if scaled >= 0 {
        ((scaled as u128) / (d as u128)) as i128
    } else {
        -((((-scaled) as u128) / (d as u128)) as i128)
    };
    Some(q)
}

/// What the engine's exit code means: success only for exit code 0; any
/// other code, or none (killed by a signal), is a failure carrying it.
pub fn exit_outcome(code: Option<i32>) -> (r: Result<(), Error>)
    ensures
        code == Some(0i32) ==> r is Ok,
        code != Some(0i32) ==> (r matches Err(Error::FfmpegError { status }) && status == code),
{
    match code {
        Some(0i32) => Ok(()),
        _ => Err(Error::FfmpegError { status: code }),
    }
}

} // verus!
