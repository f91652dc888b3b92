//! How an accumulated number of seconds is shown to the user.

use vstd::prelude::*;
use vstd::string::*;
use crate::text::{decimal, decimal_string};

verus! {

/// The display text of `seconds`: whole seconds below a minute, whole minutes
/// below an hour, whole hours from there on. Division truncates, and the unit
/// is always written in the plural.
pub open spec fn time_text(seconds: nat) -> Seq<char> {
    if seconds < 60 {
        decimal(seconds) + " seconds"@
    } else if seconds < 3600 {
        decimal(seconds / 60) + " minutes"@
    } else {
        decimal(seconds / 3600) + " hours"@
    }
}

/// Renders an accumulated time for display.
pub fn format_time(time: &u64) -> (text: String)
    ensures
        text@ == time_text(*time as nat),
{
    let seconds: u64 = *time;
    if seconds < 60 {
        let mut text = decimal_string(seconds);
        text.append(" seconds");
        text
    } else if seconds < 3600 {
        let mut text = decimal_string(seconds / 60);
        text.append(" minutes");
        text
    } else {
        let mut text = decimal_string(seconds / 3600);
        text.append(" hours");
        text
    }
}

/// The line that lists a process name with its accumulated time.
pub open spec fn listing_text(name: Seq<char>, seconds: nat) -> Seq<char> {
    name + ", "@ + time_text(seconds)
}

/// The line that lists the process `name` with `seconds` of run time.
pub fn listing_line(name: &str, seconds: u64) -> (line: String)
    ensures
        line@ == listing_text(name@, seconds as nat),
{
    let mut line = String::from_str(name);
    line.append(", ");
    let time = format_time(&seconds);
    line.append(time.as_str());
    line
}

} // verus!
