//! The footer line under the banner: elapsed-time text, the reason text,
//! or both joined by a separator; nothing when neither is wanted.
use vstd::prelude::*;

use crate::ansi::{chars_to_string, clear_line_seq, push_clear_line};
use crate::timer::{Timer, clock_fmt, dur_ns, duration_fmt};

verus! {

/// The elapsed-time text for a timer that is still running.
pub open spec fn measuring_text(t: Timer) -> Seq<char> {
    "left from "@ + clock_fmt(t.start_of())
}

/// The elapsed-time text for a timer that has ended: a clear-line escape,
/// then the span from start to end with the duration in brackets.
pub open spec fn ended_text(t: Timer) -> Seq<char> {
    clear_line_seq() + "left from "@ + clock_fmt(t->Ended_0) + " to "@ + clock_fmt(t->Ended_1)
        + " ("@ + duration_fmt(dur_ns(t->Ended_0, t->Ended_1)) + ")"@
}

fn clear_line_string() -> (r: String)
    ensures
        r@ == clear_line_seq(),
{
    let mut buf: Vec<char> = Vec::new();
    push_clear_line(&mut buf);
    chars_to_string(&buf)
}

/// Builds the footer message: the timer's elapsed-time text when a timer
/// is given, the reason after it when one is given, both joined by a
/// separator; no message when neither is given.
pub fn generate_footer_message(timer: Option<&Timer>, reason: &Option<String>) -> (r: Option<
    String,
>)
    requires
        match timer {
            Some(t) => t.wf(),
            None => true,
        },
    ensures
        r is Some <==> (timer is Some || *reason is Some),
        match (timer, *reason) {
            (Some(t), Some(rs)) => match *t {
                Timer::Ended(_, _) => r->0@ == ended_text(*t) + " | reason: "@ + rs@,
                Timer::Measuring(_) => r->0@ == measuring_text(*t) + " | reason: "@ + rs@,
            },
            (Some(t), None) => match *t {
                Timer::Ended(_, _) => r->0@ == ended_text(*t),
                Timer::Measuring(_) => r->0@ == measuring_text(*t),
            },
            (None, Some(rs)) => r->0@ == "reason: "@ + rs@,
            (None, None) => r is None,
        },
{
    let formatted_timer: Option<String> = match timer {
        None => None,
        Some(t) => {
            if t.is_measuring() {
                let mut s = String::new();
                s.append("left from ");
                let start = t.formatted_start();
                s.append(start.as_str());
                Some(s)
            } else {
                let mut s = clear_line_string();
                s.append("left from ");
                let start = t.formatted_start();
                s.append(start.as_str());
                s.append(" to ");
                let end = t.formatted_end();
                s.append(end.as_str());
                s.append(" (");
                let dur = t.formatted_duration();
                s.append(dur.as_str());
                s.append(")");
                Some(s)
            }
        },
    };
    match (formatted_timer, reason) {
        (Some(formatted_timer), Some(reason)) => {
            let mut s = formatted_timer;
            s.append(" | reason: ");
            s.append(reason.as_str());
            Some(s)
        },
        (Some(formatted_timer), None) => Some(formatted_timer),
        (None, Some(reason)) => {
            let mut s = String::new();
            s.append("reason: ");
            s.append(reason.as_str());
            Some(s)
        },
        (None, None) => None,
    }
}

} // verus!
