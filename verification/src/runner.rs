//! Computations of the conversion runner: output-path normalization,
//! encoder command lines, per-line progress and diagnostic handling, and
//! the failure message built when the encoder exits badly. The runner's
//! process spawning and stream plumbing live outside the crate and feed
//! these functions one plain value at a time.

use vstd::prelude::*;

verus! {

use crate::ffmpeg::ConversionJob;
use crate::ffmpeg::preset_args_spec;
use crate::ffmpeg::string_views;
use crate::ffmpeg_parser::percent_spec;
use crate::ffmpeg_parser::compute_percent;
use crate::ffmpeg_parser::parse_progress_line;
use crate::ffmpeg_parser::parse_progress_time;
use crate::ffmpeg_parser::progress_time_spec;
use crate::ffmpeg_parser::time_field_ms;
use crate::text::contains_ci;
use crate::text::contains_ci_exec;
use crate::text::dec_str;
use crate::text::u64_to_string;
use crate::trusted::b64_of;
use crate::trusted::base64_encode;
use crate::trusted::push_char;
use vstd::string::StrSliceExecFns;
use vstd::string::StringExecFns;

/// The output path with every non-breaking space turned into a plain
/// space; a known encoder incompatibility on some platforms.
pub open spec fn normalize_path_spec(s: Seq<char>) -> Seq<char> {
    s.map_values(
        |c: char|
            if c == '\u{a0}' {
                ' '
            } else {
                c
            },
    )
}

/// Substitutes a regular space for each non-breaking space. Applied to the
/// output path only; the input path is used verbatim.
pub fn normalize_output_path(path: &str) -> (r: String)
    ensures
        r@ == normalize_path_spec(path@),
{
    let n: usize = path.unicode_len();
    let mut out = String::new();
    let mut i: usize = 0;
    while i < n
        invariant
            n == path@.len(),
            i <= n,
            out@.len() == i,
            forall|k: int|
                0 <= k < i ==> out@[k] == (if path@[k] == '\u{a0}' {
                    ' '
                } else {
                    path@[k]
                }),
        decreases n - i,
    {
        let c = path.get_char(i);
        if c as u32 == 160 {
            push_char(&mut out, ' ');
        } else {
            push_char(&mut out, c);
        }
        i += 1;
    }
    proof {
        assert(out@ =~= normalize_path_spec(path@));
    }
    out
}

/// The full encoder invocation for one job: input path, machine progress
/// on the error stream, human stats, overwrite enabled, the preset's
/// arguments, then the normalized output path.
pub open spec fn conversion_args_spec(job: ConversionJob) -> Seq<Seq<char>> {
    seq!["-i"@, job.input_path@, "-progress"@, "pipe:2"@, "-stats"@, "-y"@] + preset_args_spec(
        job.preset,
    ) + seq![normalize_path_spec(job.output_path@)]
}

/// Builds the encoder argument list for one conversion.
pub fn build_conversion_args(job: &ConversionJob) -> (r: Vec<String>)
    ensures
        string_views(r@) == conversion_args_spec(*job),
{
    let mut args: Vec<String> = Vec::new();
    args.push("-i".to_owned());
    args.push(job.input_path.clone());
    args.push("-progress".to_owned());
    args.push("pipe:2".to_owned());
    args.push("-stats".to_owned());
    args.push("-y".to_owned());
    let mut preset_args = job.preset.to_ffmpeg_args();
    let ghost preset_views = string_views(preset_args@);
    args.append(&mut preset_args);
    args.push(normalize_output_path(job.output_path.as_str()));
    proof {
        assert(string_views(args@) =~= conversion_args_spec(*job));
    }
    args
}

/// The encoder invocation that renders one thumbnail frame: seek first for
/// fast input seeking, one frame, scaled to a 320-wide preview.
pub fn build_thumbnail_args(input_path: &str, output_path: &str, time_offset: &str) -> (r: Vec<
    String,
>)
    ensures
        string_views(r@) == seq![
            "-ss"@,
            time_offset@,
            "-i"@,
            input_path@,
            "-vframes"@,
            "1"@,
            "-vf"@,
            "scale=320:-1"@,
            "-y"@,
            output_path@,
        ],
{
    let mut args: Vec<String> = Vec::new();
    args.push("-ss".to_owned());
    args.push(time_offset.to_owned());
    args.push("-i".to_owned());
    args.push(input_path.to_owned());
    args.push("-vframes".to_owned());
    args.push("1".to_owned());
    args.push("-vf".to_owned());
    args.push("scale=320:-1".to_owned());
    args.push("-y".to_owned());
    args.push(output_path.to_owned());
    proof {
        assert(string_views(args@) =~= seq![
            "-ss"@,
            time_offset@,
            "-i"@,
            input_path@,
            "-vframes"@,
            "1"@,
            "-vf"@,
            "scale=320:-1"@,
            "-y"@,
            output_path@,
        ]);
    }
    args
}

/// The thumbnail artifact name for a job: its id with a `.jpg` suffix.
pub fn thumbnail_file_name(job_id: &str) -> (r: String)
    ensures
        r@ == job_id@ + ".jpg"@,
{
    let mut out = job_id.to_owned();
    out.append(".jpg");
    out
}

/// A millisecond count rendered as decimal seconds, `S.fff`.
pub open spec fn ms_sec_string(ms: nat) -> Seq<char> {
    dec_str(ms / 1000) + seq![
        '.',
        ((48 + (ms % 1000) / 100) as u8) as char,
        ((48 + (ms % 1000) / 10 % 10) as u8) as char,
        ((48 + ms % 10) as u8) as char,
    ]
}

/// The seek offset for a job's thumbnail: a tenth of its duration,
/// rendered in seconds for the encoder.
pub fn thumbnail_time_offset(duration_ms: u64) -> (r: String)
    ensures
        r@ == ms_sec_string((duration_ms / 10) as nat),
{
    let ms: u64 = duration_ms / 10;
    let mut out = u64_to_string(ms / 1000);
    let f: u64 = ms % 1000;
    push_char(&mut out, '.');
    push_char(&mut out, ((48 + (f / 100) as u32) as u8) as char);
    push_char(&mut out, ((48 + (f / 10 % 10) as u32) as u8) as char);
    push_char(&mut out, ((48 + (f % 10) as u32) as u8) as char);
    proof {
        assert(out@ =~= ms_sec_string(ms as nat));
    }
    out
}

/// A line the runner retains as a diagnostic candidate: it mentions
/// `error` or `invalid`, ignoring ASCII case.
pub open spec fn is_diagnostic_line(line: Seq<char>) -> bool {
    contains_ci(line, "error"@) || contains_ci(line, "invalid"@)
}

/// The duration a progress computation works against: unknown reads as
/// zero, which the percent formula maps to no progress.
pub open spec fn known_duration(duration_ms: Option<u64>) -> nat {
    match duration_ms {
        Some(d) => d as nat,
        None => 0,
    }
}

/// Percent reported by one standard-output line: stats lines only.
pub open spec fn stdout_progress_spec(line: Seq<char>, duration_ms: Option<u64>) -> Option<u32> {
    match time_field_ms(line) {
        Some(t) => Some(percent_spec(t as nat, known_duration(duration_ms)) as u32),
        None => None,
    }
}

/// Percent reported by one error-stream line: a stats line, or failing
/// that a machine-grammar `out_time=` line.
pub open spec fn stderr_progress_spec(line: Seq<char>, duration_ms: Option<u64>) -> Option<u32> {
    match time_field_ms(line) {
        Some(t) => Some(percent_spec(t as nat, known_duration(duration_ms)) as u32),
        None => match progress_time_spec(line) {
            Some(t) => Some(percent_spec(t as nat, known_duration(duration_ms)) as u32),
            None => None,
        },
    }
}

/// Reads one standard-output line of the running encoder and computes the
/// percent it reports, if any.
pub fn handle_stdout_line(line: &str, duration_ms: Option<u64>) -> (r: Option<u32>)
    ensures
        r == stdout_progress_spec(line@, duration_ms),
        r matches Some(p) ==> p <= 100,
{
    let dur: u64 = match duration_ms {
        Some(d) => d,
        None => 0,
    };
    match parse_progress_line(line) {
        Some(p) => Some(compute_percent(p.time_ms, dur)),
        None => None,
    }
}

/// Retains the most recent diagnostic candidate seen on the encoder's
/// error stream while it runs.
pub struct StreamMonitor {
    pub last_error_line: Option<String>,
}

impl StreamMonitor {
    /// A monitor that has seen nothing yet.
    pub fn new() -> (r: StreamMonitor)
        ensures
            r.last_error_line is None,
    {
        StreamMonitor { last_error_line: None }
    }

    /// Reads one error-stream line: a diagnostic candidate replaces the
    /// retained line, and any progress the line reports is computed.
    pub fn handle_stderr_line(&mut self, line: &str, duration_ms: Option<u64>) -> (r: Option<u32>)
        ensures
            r == stderr_progress_spec(line@, duration_ms),
            r matches Some(p) ==> p <= 100,
            if is_diagnostic_line(line@) {
                final(self).last_error_line matches Some(l) && l@ == line@
            } else {
                final(self).last_error_line == old(self).last_error_line
            },
    {
        if contains_ci_exec(line, "error") || contains_ci_exec(line, "invalid") {
            self.last_error_line = Some(line.to_owned());
        }
        let dur: u64 = match duration_ms {
            Some(d) => d,
            None => 0,
        };
        match parse_progress_line(line) {
            Some(p) => Some(compute_percent(p.time_ms, dur)),
            None => match parse_progress_time(line) {
                Some(t) => Some(compute_percent(t, dur)),
                None => None,
            },
        }
    }
}

/// The terminal message for a failed conversion: the retained diagnostic
/// line when one was captured, else a generic failure text.
pub fn failure_message(last_error_line: &Option<String>) -> (r: String)
    ensures
        match last_error_line {
            Some(l) => r@ == "FFmpeg conversion failed: "@ + l@,
            None => r@ == "FFmpeg conversion failed with unknown error"@,
        },
{
    match last_error_line {
        Some(l) => {
            let mut out = "FFmpeg conversion failed: ".to_owned();
            out.append(l.as_str());
            out
        },
        None => "FFmpeg conversion failed with unknown error".to_owned(),
    }
}

/// A thumbnail image as a data URL for display: the base64 encoding of its
/// bytes behind a JPEG media-type prefix.
pub fn thumbnail_data_url(bytes: &Vec<u8>) -> (r: String)
    requires
        bytes@.len() <= usize::MAX / 4 * 3,
    ensures
        r@ == "data:image/jpeg;base64,"@ + b64_of(bytes@),
{
    let mut out = "data:image/jpeg;base64,".to_owned();
    let enc = base64_encode(bytes);
    out.append(enc.as_str());
    out
}

} // verus!
