//! The log file's lines. A tray app has no console, so this file is the only way to
//! diagnose anything on the machine it runs on.

use vstd::prelude::*;

use crate::paths;
use crate::text;
use crate::win;
use crate::win::SYSTEMTIME;

verus! {

pub const LOG_FILE: &'static str = "clipplus.log";

pub const MAX_LOG_BYTES: u64 = 1_048_576;

/// Where the log is kept.
pub fn path(app_dir: &str) -> (r: String)
    ensures
        r@ == paths::joined(app_dir@, LOG_FILE@),
{
    paths::join(app_dir, LOG_FILE)
}

/// Whether a log of this size is started over before the next line.
pub fn outgrown(length: u64) -> (r: bool)
    ensures
        r == (length > MAX_LOG_BYTES),
{
    length > MAX_LOG_BYTES
}

pub open spec fn line_of(now: SYSTEMTIME, level: Seq<char>, message: Seq<char>) -> Seq<char> {
    win::timestamp(now) + " ["@ + level + "] "@ + message + "\n"@
}

fn line(now: &SYSTEMTIME, level: &str, message: &str) -> (r: String)
    ensures
        r@ == line_of(*now, level@, message@),
{
    let mut out = win::local_timestamp(now);
    out.append(" [");
    out.append(level);
    out.append("] ");
    out.append(message);
    out.append("\n");
    out
}

pub fn info(now: &SYSTEMTIME, message: &str) -> (r: String)
    ensures
        r@ == line_of(*now, "INFO "@, message@),
{
    line(now, "INFO ", message)
}

pub fn warn(now: &SYSTEMTIME, message: &str) -> (r: String)
    ensures
        r@ == line_of(*now, "WARN "@, message@),
{
    line(now, "WARN ", message)
}

pub fn error(now: &SYSTEMTIME, message: &str) -> (r: String)
    ensures
        r@ == line_of(*now, "ERROR"@, message@),
{
    line(now, "ERROR", message)
}

/// A line begins with the time, ends with its message and a line break, and has the
/// level between.
pub proof fn law_line(now: SYSTEMTIME, level: Seq<char>, message: Seq<char>)
    ensures
        ({
            let line = line_of(now, level, message);
            let time = win::timestamp(now).len() as int;
            &&& line.take(time) == win::timestamp(now)
            &&& line.last() == '\n'
            &&& text::ends_with(line.drop_last(), message)
            &&& line.subrange(time, line.len() - message.len() - 1) == " ["@ + level + "] "@
        }),
{
    reveal_strlit("\n");
    let line = line_of(now, level, message);
    let time = win::timestamp(now).len() as int;
    let rest = line.drop_last();
    assert(line.take(time) =~= win::timestamp(now));
    assert(rest.skip(rest.len() - message.len()) =~= message);
    assert(line.subrange(time, line.len() - message.len() - 1) =~= " ["@ + level + "] "@);
}

} // verus!
