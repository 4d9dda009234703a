//! Where a recording goes: the root save directory, the timestamped
//! session directory, the artifact and metadata file names, and the
//! whole start plan for one session.

use vstd::prelude::*;

use chrono::{Datelike, Timelike};

use crate::command::{args_view, build_command, command_args};
use crate::options::RecordingOptions;
use crate::text::{dec_digits, digit_char, push_char, u64_to_string};

verus! {

/// A base with one component appended: an empty base yields the
/// component alone, and the separator is inserted only when the base
/// does not already end with it.
pub open spec fn joined(base: Seq<char>, name: Seq<char>, sep: char) -> Seq<char> {
    if base.len() == 0 {
        name
    } else if base.last() == sep {
        base + name
    } else {
        base + seq![sep] + name
    }
}

/// The root directory a recording is saved under: the explicit path
/// when one was given, else the platform video directory (or the
/// current directory) with the application's folder appended.
pub open spec fn root_dir_of(
    save_path: Seq<char>,
    video_dir: Option<Seq<char>>,
    sep: char,
) -> Seq<char> {
    if save_path.len() > 0 {
        save_path
    } else {
        joined(
            (match video_dir {
                Some(d) => d,
                None => "./"@,
            }),
            "Reframe"@,
            sep,
        )
    }
}

/// Joins one path component onto a base with the given separator.
pub fn join_path(base: &str, name: &str, sep: char) -> (r: String)
    ensures
        r@ == joined(base@, name@, sep),
{
    let n = base.unicode_len();
    if n == 0 {
        return name.to_owned();
    }
    let mut r = base.to_owned();
    if !(base.get_char(n - 1) == sep) {
        push_char(&mut r, sep);
    }
    r.append(name);
    proof {
        assert(r@ =~= joined(base@, name@, sep));
    }
    r
}

/// Resolves the root save directory.
pub fn resolve_root(save_path: &str, video_dir: Option<String>, sep: char) -> (r: String)
    ensures
        r@ == root_dir_of(save_path@, (match video_dir {
            Some(d) => Some(d@),
            None => None,
        }), sep),
{
    if !save_path.is_empty() {
        save_path.to_owned()
    } else {
        let base = (match video_dir {
            Some(d) => d,
            None => "./".to_owned(),
        });
        join_path(base.as_str(), "Reframe", sep)
    }
}

/// Two digits, zero padded.
pub open spec fn pad2(n: nat) -> Seq<char> {
    seq![digit_char(n / 10 % 10), digit_char(n % 10)]
}

/// Four digits, zero padded.
pub open spec fn pad4(n: nat) -> Seq<char> {
    seq![
        digit_char(n / 1000 % 10),
        digit_char(n / 100 % 10),
        digit_char(n / 10 % 10),
        digit_char(n % 10),
    ]
}

/// The session timestamp wording: year, month and day joined by
/// dashes, an underscore, then hour, minute and second joined by
/// dashes, every field zero padded.
pub open spec fn stamp_text(
    year: int,
    month: nat,
    day: nat,
    hour: nat,
    minute: nat,
    second: nat,
) -> Seq<char> {
    (if year < 0 {
        seq!['-'] + year_digits((0 - year) as nat)
    } else {
        year_digits(year as nat)
    }) + seq!['-'] + pad2(month) + seq!['-'] + pad2(day) + seq!['_'] + pad2(hour) + seq!['-']
        + pad2(minute) + seq!['-'] + pad2(second)
}

/// A year's digits: zero padded to four, full digits beyond that.
pub open spec fn year_digits(y: nat) -> Seq<char> {
    if y <= 9999 {
        pad4(y)
    } else {
        dec_digits(y)
    }
}

fn push_pad2(out: &mut String, n: u64)
    requires
        n < 100,
    ensures
        final(out)@ == old(out)@ + pad2(n as nat),
{
    let ghost o0 = out@;
    push_char(out, crate::text::digit_char_exec(n / 10 % 10));
    push_char(out, crate::text::digit_char_exec(n % 10));
    proof {
        assert(out@ =~= o0 + pad2(n as nat));
    }
}

fn year_string(y: u64) -> (r: String)
    ensures
        r@ == year_digits(y as nat),
{
    if y <= 9999 {
        let mut r = String::new();
        push_char(&mut r, crate::text::digit_char_exec(y / 1000 % 10));
        push_char(&mut r, crate::text::digit_char_exec(y / 100 % 10));
        push_char(&mut r, crate::text::digit_char_exec(y / 10 % 10));
        push_char(&mut r, crate::text::digit_char_exec(y % 10));
        proof {
            assert(r@ =~= pad4(y as nat));
        }
        r
    } else {
        u64_to_string(y)
    }
}

/// Formats the session timestamp from local civil-time fields.
pub fn format_timestamp(
    year: i64,
    month: u64,
    day: u64,
    hour: u64,
    minute: u64,
    second: u64,
) -> (r: String)
    requires
        -9999999999 <= year <= 9999999999,
        month < 100,
        day < 100,
        hour < 100,
        minute < 100,
        second < 100,
    ensures
        r@ == stamp_text(
            year as int,
            month as nat,
            day as nat,
            hour as nat,
            minute as nat,
            second as nat,
        ),
{
    let mut r = String::new();
    if year < 0 {
        push_char(&mut r, '-');
        let ys = year_string((0 - year) as u64);
        r.append(ys.as_str());
    } else {
        let ys = year_string(year as u64);
        r.append(ys.as_str());
    }
    push_char(&mut r, '-');
    push_pad2(&mut r, month);
    push_char(&mut r, '-');
    push_pad2(&mut r, day);
    push_char(&mut r, '_');
    push_pad2(&mut r, hour);
    push_char(&mut r, '-');
    push_pad2(&mut r, minute);
    push_char(&mut r, '-');
    push_pad2(&mut r, second);
    proof {
        assert(r@ =~= stamp_text(
            year as int,
            month as nat,
            day as nat,
            hour as nat,
            minute as nat,
            second as nat,
        ));
    }
    r
}

/// The session directory's name for a timestamp.
pub fn session_dir_name(stamp: &str) -> (r: String)
    ensures
        r@ == "Session_"@ + stamp@,
{
    let mut r = String::from_str("Session_");
    r.append(stamp);
    r
}

/// The artifact file's well-known name.
pub fn artifact_file_name() -> (r: String)
    ensures
        r@ == "screen.mp4"@,
{
    "screen.mp4".to_owned()
}

/// The metadata file's well-known name.
pub fn metadata_file_name() -> (r: String)
    ensures
        r@ == "metadata.json"@,
{
    "metadata.json".to_owned()
}

/// Relies on std::time::SystemTime and chrono's DateTime::from_timestamp,
/// with_timezone and the Datelike/Timelike accessors: the local civil
/// time, as chrono::Local::now computes it, but total — a clock before
/// the Unix epoch or beyond chrono's year range yields nothing instead
/// of chrono's panic. chrono documents the month as 1 to 12, the day
/// as 1 to 31, the hour below 24, minute and second below 60, and
/// keeps years within about six decimal digits.
#[verifier::external_body]
pub fn now_local_fields() -> (r: Option<(i64, u64, u64, u64, u64, u64)>)
    ensures
        (match r {
            Some(f) => -9999999999 <= f.0 <= 9999999999 && 1 <= f.1 <= 12 && 1 <= f.2 <= 31
                && f.3 <= 23 && f.4 <= 59 && f.5 <= 59,
            None => true,
        }),
{
    let d = match std::time::SystemTime::now().duration_since(std::time::UNIX_EPOCH) {
        Ok(d) => d,
        Err(_) => return None,
    };
    let utc = match chrono::DateTime::from_timestamp(d.as_secs() as i64, d.subsec_nanos()) {
        Some(t) => t,
        None => return None,
    };
    let t = utc.with_timezone(&chrono::Local);
    Some((t.year() as i64, t.month() as u64, t.day() as u64, t.hour() as u64, t.minute() as u64, t.second() as u64))
}

/// Relies on dirs::video_dir: the platform's video directory when the
/// system reports one; nothing is promised of the reported path.
#[verifier::external_body]
pub fn platform_video_dir() -> (r: Option<String>)
{
    dirs::video_dir().map(|p| p.to_string_lossy().to_string())
}

/// Everything a start request needs before the encoder is spawned.
pub struct StartPlan {
    /// The session directory to create.
    pub session_dir: String,
    /// The artifact path handed to the encoder and kept while active.
    pub output_path: String,
    /// The encoder's argument list.
    pub args: Vec<String>,
}

/// Lays out one session: the root is resolved, the session directory
/// named after the timestamp, the artifact path placed inside it, and
/// the encoder command built for that path.
pub fn plan_start(
    o: &RecordingOptions,
    video_dir: Option<String>,
    stamp: &str,
    sep: char,
) -> (p: StartPlan)
    ensures
        p.session_dir@ == joined(root_dir_of(o.save_path@, (match video_dir {
            Some(d) => Some(d@),
            None => None,
        }), sep), "Session_"@ + stamp@, sep),
        p.output_path@ == joined(p.session_dir@, "screen.mp4"@, sep),
        args_view(p.args@) == command_args(o, p.output_path@),
{
    let root = resolve_root(o.save_path.as_str(), video_dir, sep);
    let dir_name = session_dir_name(stamp);
    let session_dir = join_path(root.as_str(), dir_name.as_str(), sep);
    let artifact = artifact_file_name();
    let output_path = join_path(session_dir.as_str(), artifact.as_str(), sep);
    let args = build_command(o, output_path.as_str());
    StartPlan { session_dir, output_path, args }
}

} // verus!
