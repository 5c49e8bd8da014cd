use vstd::prelude::*;
use vstd::string::{StringExecFns, StrSliceExecFns};
use crate::text::{four_digits, four_digit_string, two_digits, two_digit_string};

verus! {

/// One line of the security log: the timestamp in brackets, then the event.
pub open spec fn log_line(timestamp: Seq<char>, event: Seq<char>) -> Seq<char> {
    "["@ + timestamp + "] "@ + event + "\n"@
}

/// The text appended to an event to record its verification verdict.
pub open spec fn verdict_text(verified: bool) -> Seq<char> {
    if verified {
        "VERIFIED"@
    } else {
        "TAMPER DETECTED"@
    }
}

/// A wall-clock timestamp as `YYYY-MM-DD HH:MM:SS`.
pub open spec fn display_timestamp(
    year: int,
    month: int,
    day: int,
    hour: int,
    minute: int,
    second: int,
) -> Seq<char> {
    four_digits(year) + "-"@ + two_digits(month) + "-"@ + two_digits(day) + " "@ + two_digits(hour)
        + ":"@ + two_digits(minute) + ":"@ + two_digits(second)
}

/// A wall-clock timestamp as `YYYYMMDD_HHMMSS`, for artifact names.
pub open spec fn compact_timestamp(
    year: int,
    month: int,
    day: int,
    hour: int,
    minute: int,
    second: int,
) -> Seq<char> {
    four_digits(year) + two_digits(month) + two_digits(day) + "_"@ + two_digits(hour) + two_digits(
        minute,
    ) + two_digits(second)
}

/// Format the wall clock for log lines. The clock itself belongs to the
/// platform: it reads the local time and hands its parts in.
pub fn format_display_timestamp(
    year: u32,
    month: u32,
    day: u32,
    hour: u32,
    minute: u32,
    second: u32,
) -> (text: String)
    requires
        year < 10000,
        month < 100,
        day < 100,
        hour < 100,
        minute < 100,
        second < 100,
    ensures
        text@ == display_timestamp(
            year as int,
            month as int,
            day as int,
            hour as int,
            minute as int,
            second as int,
        ),
{
    let mut text = four_digit_string(year);
    text.append("-");
    let part = two_digit_string(month);
    text.append(part.as_str());
    text.append("-");
    let part = two_digit_string(day);
    text.append(part.as_str());
    text.append(" ");
    let part = two_digit_string(hour);
    text.append(part.as_str());
    text.append(":");
    let part = two_digit_string(minute);
    text.append(part.as_str());
    text.append(":");
    let part = two_digit_string(second);
    text.append(part.as_str());
    proof {
        assert(text@ =~= display_timestamp(
            year as int,
            month as int,
            day as int,
            hour as int,
            minute as int,
            second as int,
        ));
    }
    text
}

/// Format the wall clock for artifact names.
pub fn format_compact_timestamp(
    year: u32,
    month: u32,
    day: u32,
    hour: u32,
    minute: u32,
    second: u32,
) -> (text: String)
    requires
        year < 10000,
        month < 100,
        day < 100,
        hour < 100,
        minute < 100,
        second < 100,
    ensures
        text@ == compact_timestamp(
            year as int,
            month as int,
            day as int,
            hour as int,
            minute as int,
            second as int,
        ),
{
    let mut text = four_digit_string(year);
    let part = two_digit_string(month);
    text.append(part.as_str());
    let part = two_digit_string(day);
    text.append(part.as_str());
    text.append("_");
    let part = two_digit_string(hour);
    text.append(part.as_str());
    let part = two_digit_string(minute);
    text.append(part.as_str());
    let part = two_digit_string(second);
    text.append(part.as_str());
    proof {
        assert(text@ =~= compact_timestamp(
            year as int,
            month as int,
            day as int,
            hour as int,
            minute as int,
            second as int,
        ));
    }
    text
}

/// Compose one timestamped security log line. The platform appends the line
/// to the log file; an append failure is propagated there, never swallowed,
/// since an unverifiable log undermines the tamper-evidence guarantee.
pub fn log_event(timestamp: &str, event: &str) -> (line: String)
    ensures
        line@ == log_line(timestamp@, event@),
{
    let mut line = String::from_str("[");
    line.append(timestamp);
    line.append("] ");
    line.append(event);
    line.append("\n");
    proof {
        assert(line@ =~= log_line(timestamp@, event@));
    }
    line
}

/// Compose a security log line that records the LED verification verdict
/// beside the event.
pub fn log_verified_event(timestamp: &str, event: &str, verified: bool) -> (line: String)
    ensures
        line@ == log_line(timestamp@, event@ + " - "@ + verdict_text(verified)),
{
    let mut tagged = String::from_str(event);
    tagged.append(" - ");
    if verified {
        tagged.append("VERIFIED");
    } else {
        tagged.append("TAMPER DETECTED");
    }
    let line = log_event(timestamp, tagged.as_str());
    proof {
        assert(tagged@ =~= event@ + " - "@ + verdict_text(verified));
    }
    line
}

} // verus!
