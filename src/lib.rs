//! Converts standard-aspect video to a wide "superview" picture by computing a
//! per-pixel horizontal remap and driving an external transcoding engine.
//!
//! The pipeline is a [`Session`]: each step names the outside work to do next,
//! and the outcome of that work, handed back as an [`Event`], decides the
//! following step. Any failure is final; nothing is retried.
use vstd::prelude::*;

pub mod pgm;
pub mod filter;
pub mod probe;
pub mod reencode;

use filter::{superview_width_of, FilterConfig};
use probe::Specs;

verus! {

/// Why the pipeline stopped.
pub enum Error {
    /// The input file could not be opened.
    OpenInput { input: String, message: String },
    /// The engine's codec list could not be obtained.
    GetCodecs { message: String },
    /// A tool's output was not valid UTF-8; `what` names the output.
    InvalidUtf8 { what: String },
    /// Probing the input failed.
    ProbeInput { input: String, source: probe::Error },
    /// The prober reported no video stream.
    NoVideoStream { input: String },
    /// The map files could not be produced.
    GenerateFilter { source: filter::Error },
    /// Transcoding failed.
    Reencode { source: reencode::Error },
}

/// The next piece of outside work, or the end of the pipeline.
pub enum Step {
    /// Check that the input file opens.
    OpenInput,
    /// Ask the engine for its codec list.
    ListCodecs,
    /// Probe the input's first video stream.
    Probe,
    /// Write the two map files for `filter`; the rest is kept for transcoding.
    GenerateFilters { filter: FilterConfig, codec_name: String, bitrate: u32, duration_us: u64 },
    /// Run the transcoding engine.
    Reencode(reencode::Config),
    /// The output was written.
    Finished,
    /// The pipeline stopped for good.
    Failed(Error),
}

/// The outcome of the outside work of a step.
pub enum Event {
    InputOpened,
    InputOpenFailed { message: String },
    CodecsListed,
    CodecsFailed { message: String },
    CodecsNotUtf8,
    Probed(Specs),
    ProbeFailed(probe::Error),
    FiltersWritten { x_path: String, y_path: String },
    FiltersFailed(filter::Error),
    Reencoded,
    ReencodeFailed(reencode::Error),
}

/// One conversion of `input` to `output`, at the given bit rate or, without
/// one, at the input's.
pub struct Session {
    pub input: String,
    pub output: String,
    pub bitrate: Option<u32>,
    pub step: Step,
}

pub open spec fn is_done(step: Step) -> bool {
    step is Finished || step is Failed
}

/// The step that follows `s.step` on event `e`. An event that does not answer
/// the current step leaves it as it is, and so does every event once the
/// pipeline is done.
pub open spec fn advances(s: Session, e: Event, next: Step) -> bool {
    match s.step {
        Step::OpenInput => match e {
            Event::InputOpened => next is ListCodecs,
            Event::InputOpenFailed { message } => (next matches Step::Failed(
                Error::OpenInput { input, message: m },
            ) && input@ == s.input@ && m == message),
            _ => next == s.step,
        },
        Step::ListCodecs => match e {
            Event::CodecsListed => next is Probe,
            Event::CodecsFailed { message } => next == Step::Failed(Error::GetCodecs { message }),
            Event::CodecsNotUtf8 => (next matches Step::Failed(Error::InvalidUtf8 { what })
                && what@ == "codec list"@),
            _ => next == s.step,
        },
        Step::Probe => match e {
            Event::Probed(specs) => if specs.streams@.len() == 0 {
                (next matches Step::Failed(Error::NoVideoStream { input }) && input@ == s.input@)
            } else {
                let st = specs.streams@[0];
                next == Step::GenerateFilters {
                    filter: FilterConfig {
                        width: st.width,
                        height: st.height,
                        target_width: superview_width_of(st.width as int) as u32,
                    },
                    codec_name: st.codec_name,
                    bitrate: match s.bitrate {
                        Some(b) => b,
                        None => st.bitrate,
                    },
                    duration_us: st.duration_us,
                }
            },
            Event::ProbeFailed(err) => (next matches Step::Failed(
                Error::ProbeInput { input, source },
            ) && input@ == s.input@ && source == err),
            _ => next == s.step,
        },
        Step::GenerateFilters { filter, codec_name, bitrate, duration_us } => match e {
            Event::FiltersWritten { x_path, y_path } => (next matches Step::Reencode(c)
                && c.input@ == s.input@ && c.output@ == s.output@ && c.x_filt == x_path && c.y_filt
                == y_path && c.codec_name == codec_name && c.bitrate == bitrate && c.duration_us
                == duration_us),
            Event::FiltersFailed(err) => next == Step::Failed(Error::GenerateFilter { source: err }),
            _ => next == s.step,
        },
        Step::Reencode(_) => match e {
            Event::Reencoded => next is Finished,
            Event::ReencodeFailed(err) => next == Step::Failed(Error::Reencode { source: err }),
            _ => next == s.step,
        },
        Step::Finished => next == s.step,
        Step::Failed(_) => next == s.step,
    }
}

impl Session {
    /// A session whose first step is to check that the input opens.
    pub fn new(input: String, output: String, bitrate: Option<u32>) -> (r: Session)
        ensures
            r.input == input,
            r.output == output,
            r.bitrate == bitrate,
            r.step is OpenInput,
    {
        Session { input, output, bitrate, step: Step::OpenInput }
    }

    /// Whether the pipeline has finished or failed.
    pub fn is_done(&self) -> (r: bool)
        ensures
            r == is_done(self.step),
    {
        match self.step {
            Step::Finished => true,
            Step::Failed(_) => true,
            _ => false,
        }
    }

    /// Takes the outcome of the current step's work and moves to the next step.
    pub fn advance(self, e: Event) -> (r: Session)
        ensures
            r.input == self.input,
            r.output == self.output,
            r.bitrate == self.bitrate,
            advances(self, e, r.step),
    {
        let Session { input, output, bitrate, step } = self;
        let next: Step = match step {
            Step::OpenInput => match e {
                Event::InputOpened => Step::ListCodecs,
                Event::InputOpenFailed { message } => Step::Failed(
                    Error::OpenInput { input: input.clone(), message },
                ),
                _ => Step::OpenInput,
            },
            Step::ListCodecs => match e {
                Event::CodecsListed => Step::Probe,
                Event::CodecsFailed { message } => Step::Failed(Error::GetCodecs { message }),
                Event::CodecsNotUtf8 => Step::Failed(
                    Error::InvalidUtf8 { what: "codec list".to_owned() },
                ),
                _ => Step::ListCodecs,
            },
            Step::Probe => match e {
                Event::Probed(specs) => {
                    let mut streams = specs.streams;
                    if streams.len() == 0 {
                        Step::Failed(Error::NoVideoStream { input: input.clone() })
                    } else {
                        let st = streams.remove(0);
                        let chosen: u32 = match bitrate {
                            Some(b) => b,
                            None => st.bitrate,
                        };
                        Step::GenerateFilters {
                            filter: FilterConfig::for_source(st.width, st.height),
                            codec_name: st.codec_name,
                            bitrate: chosen,
                            duration_us: st.duration_us,
                        }
                    }
                },
                Event::ProbeFailed(err) => Step::Failed(
                    Error::ProbeInput { input: input.clone(), source: err },
                ),
                _ => Step::Probe,
            },
            Step::GenerateFilters { filter, codec_name, bitrate: rate, duration_us } => match e {
                Event::FiltersWritten { x_path, y_path } => Step::Reencode(
                    reencode::Config {
                        input: input.clone(),
                        output: output.clone(),
                        x_filt: x_path,
                        y_filt: y_path,
                        codec_name,
                        bitrate: rate,
                        duration_us,
                    },
                ),
                Event::FiltersFailed(err) => Step::Failed(Error::GenerateFilter { source: err }),
                _ => Step::GenerateFilters { filter, codec_name, bitrate: rate, duration_us },
            },
            Step::Reencode(c) => match e {
                Event::Reencoded => Step::Finished,
                Event::ReencodeFailed(err) => Step::Failed(Error::Reencode { source: err }),
                _ => Step::Reencode(c),
            },
            Step::Finished => Step::Finished,
            Step::Failed(err) => Step::Failed(err),
        };
        Session { input, output, bitrate, step: next }
    }
}

/// The session that results from replacing the step of `s`.
pub open spec fn with_step(s: Session, step: Step) -> Session {
    Session { input: s.input, output: s.output, bitrate: s.bitrate, step }
}

/// The input is checked before anything else: when that check fails, the
/// session fails with an open error naming the input, and no later event moves
/// it on, so neither probing nor transcoding is ever asked for.
pub proof fn lemma_open_failure_stops(
    s: Session,
    message: String,
    next: Step,
    later: Event,
    after: Step,
)
    requires
        s.step is OpenInput,
        advances(s, Event::InputOpenFailed { message }, next),
        advances(with_step(s, next), later, after),
    ensures
        next matches Step::Failed(Error::OpenInput { input, message: m }) && input@ == s.input@ && m
            == message,
        after == next,
        !(after is Probe) && !(after is Reencode),
{
}

/// A transcoding failure is final: the session fails with that error, carrying
/// the engine's exit status, and no later event starts the engine again.
pub proof fn lemma_engine_failure_is_final(
    s: Session,
    status: Option<i32>,
    next: Step,
    later: Event,
    after: Step,
)
    requires
        s.step is Reencode,
        advances(s, Event::ReencodeFailed(reencode::Error::FfmpegError { status }), next),
        advances(with_step(s, next), later, after),
    ensures
        next == Step::Failed(Error::Reencode { source: reencode::Error::FfmpegError { status } }),
        after == next,
        !(after is Reencode),
{
}

/// Whether `needle` occurs in `hay`.
pub open spec fn contains_seq(hay: Seq<u8>, needle: Seq<u8>) -> bool {
    exists|i: int| 0 <= i && i + needle.len() <= hay.len() && #[trigger] hay.subrange(i, i + needle.len()) == needle
}

/// `H.264`
pub open spec fn h264_name() -> Seq<u8> {
    seq![72u8, 46u8, 50u8, 54u8, 52u8]
}

/// `H.265`
pub open spec fn h265_name() -> Seq<u8> {
    seq![72u8, 46u8, 50u8, 54u8, 53u8]
}

fn occurs_at(hay: &[u8], needle: &Vec<u8>, at: usize) -> (r: bool)
    requires
        at + needle@.len() <= hay@.len(),
    ensures
        r == (hay@.subrange(at as int, at + needle@.len()) == needle@),
{
    let n: usize = needle.len();
    let m: usize = hay.len();
    let mut j: usize = 0;
    while j < n
        invariant
            j <= n == needle@.len(),
            m == hay@.len(),
            at + n <= hay@.len(),
            hay@.subrange(at as int, at + j) == needle@.take(j as int),
        decreases n - j,
    {
        if hay[at + j] != needle[j] {
            assert(hay@.subrange(at as int, at + n)[j as int] != needle@[j as int]);
            return false;
        }
        assert(hay@.subrange(at as int, at + j + 1) =~= hay@.subrange(at as int, at + j).push(hay@[at + j]));
        assert(needle@.take(j + 1) =~= needle@.take(j as int).push(needle@[j as int]));
        j = j + 1;
    }
    assert(needle@.take(n as int) =~= needle@);
    true
}

fn contains_bytes(hay: &[u8], needle: &Vec<u8>) -> (r: bool)
    ensures
        r == contains_seq(hay@, needle@),
{
    if needle.len() > hay.len() {
        return false;
    }
    let last: usize = hay.len() - needle.len();
    let mut i: usize = 0;
    while i <= last
        invariant
            last + needle@.len() == hay@.len(),
            i <= last + 1,
            forall|k: int| 0 <= k < i ==> #[trigger] hay@.subrange(k, k + needle@.len()) != needle@,
        decreases last + 1 - i,
    {
        if occurs_at(hay, needle, i) {
            return true;
        }
        if i == last {
            return false;
        }
        i = i + 1;
    }
    false
}

/// Whether the engine's codec list mentions H.264 and H.265, in that order.
pub fn codec_support(listing: &[u8]) -> (r: (bool, bool))
    ensures
        r.0 == contains_seq(listing@, h264_name()),
        r.1 == contains_seq(listing@, h265_name()),
{
    let h264: Vec<u8> = vec![72u8, 46u8, 50u8, 54u8, 52u8];
    let h265: Vec<u8> = vec![72u8, 46u8, 50u8, 54u8, 53u8];
    assert(h264@ =~= h264_name());
    assert(h265@ =~= h265_name());
    (contains_bytes(listing, &h264), contains_bytes(listing, &h265))
}

} // verus!
