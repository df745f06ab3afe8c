use vstd::prelude::*;

use crate::text::{decimal, digit_char, push_decimal, string_from_chars};

verus! {

/// The uptime field of the status bar: whole hours, then minutes as two
/// digits, as in `up 4h07m`.
pub open spec fn uptime_text(secs: nat) -> Seq<char> {
    let hours = secs / 3600;
    let mins = (secs % 3600) / 60;
    seq!['u', 'p', ' '] + decimal(hours) + seq!['h', digit_char(mins / 10), digit_char(mins % 10), 'm']
}

/// Render the uptime of the status bar.
pub fn format_uptime(uptime_secs: u64) -> (s: String)
    ensures
        s@ == uptime_text(uptime_secs as nat),
{
    let hours = uptime_secs / 3600;
    let mins = (uptime_secs % 3600) / 60;
    let mut out: Vec<char> = Vec::new();
    out.push('u');
    out.push('p');
    out.push(' ');
    push_decimal(&mut out, hours);
    out.push('h');
    out.push((48u8 + (mins / 10) as u8) as char);
    out.push((48u8 + (mins % 10) as u8) as char);
    out.push('m');
    assert(out@ =~= uptime_text(uptime_secs as nat));
    string_from_chars(&out)
}

} // verus!
