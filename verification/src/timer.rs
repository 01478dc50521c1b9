//! The elapsed-time tracker behind the footer: a wall-clock stamp model,
//! the running/ended state machine, and the exact clock and duration
//! formats the footer prints.
use vstd::prelude::*;
use chrono::{Datelike, Timelike};

use crate::ansi::{chars_to_string, dec_digits, push_dec, push_udec};
use vstd::arithmetic::div_mod::{lemma_div_is_ordered, lemma_div_pos_is_pos,
    lemma_fundamental_div_mod, lemma_mod_pos_bound};

verus! {

/// One wall-clock reading, held as plain calendar and clock fields.
#[derive(Clone, Copy, Debug, PartialEq, Eq, Structural)]
pub struct Stamp {
    pub year: i32,
    pub month: u8,
    pub day: u8,
    pub hour: u8,
    pub minute: u8,
    pub second: u8,
    pub nanos: u32,
}

impl Stamp {
    pub open spec fn wf(&self) -> bool {
        &&& 1 <= self.month <= 12
        &&& 1 <= self.day <= 31
        &&& self.hour <= 23
        &&& self.minute <= 59
        &&& self.second <= 59
        &&& self.nanos < 2_000_000_000
    }

    /// A stamp at the whole second given by calendar and clock fields.
    pub fn new(year: i32, month: u8, day: u8, hour: u8, minute: u8, second: u8) -> (s: Stamp)
        requires
            1 <= month <= 12,
            1 <= day <= 31,
            hour <= 23,
            minute <= 59,
            second <= 59,
        ensures
            s == (Stamp { year, month, day, hour, minute, second, nanos: 0 }),
            s.wf(),
    {
        Stamp { year, month, day, hour, minute, second, nanos: 0 }
    }

    /// The same stamp with the sub-second part replaced.
    pub fn with_nanosecond(self, nanos: u32) -> (s: Stamp)
        requires
            nanos < 2_000_000_000,
        ensures
            s == (Stamp { nanos, ..self }),
            self.wf() ==> s.wf(),
    {
        Stamp { nanos, ..self }
    }
}

/// Days since 1970-01-01 of a calendar date, by the standard civil-calendar
/// formula over 400-year eras, shifted so every quotient is taken of a
/// non-negative number.
pub open spec fn days_from_civil(y: int, m: int, d: int) -> int {
    let y2 = if m <= 2 {
        y - 1
    } else {
        y
    };
    let yy = y2 + 2147484000;
    let era = yy / 400 - 5368710;
    let yoe = yy - (yy / 400) * 400;
    let mp = (m + 9) % 12;
    let doy = (153 * mp + 2) / 5 + d - 1;
    let doe = yoe * 365 + yoe / 4 - yoe / 100 + doy;
    era * 146097 + doe - 719468
}

/// Seconds since 1970-01-01 00:00:00 of a stamp's wall-clock reading.
pub open spec fn stamp_secs(s: Stamp) -> int {
    days_from_civil(s.year as int, s.month as int, s.day as int) * 86400 + s.hour * 3600
        + s.minute * 60 + s.second
}

/// Nanoseconds between two stamps' wall-clock readings.
pub open spec fn dur_ns(a: Stamp, b: Stamp) -> int {
    (stamp_secs(b) - stamp_secs(a)) * 1_000_000_000 + b.nanos - a.nanos
}

/// Division truncated toward zero, as machine division rounds.
pub open spec fn tdiv(a: int, b: int) -> int {
    if a >= 0 {
        a / b
    } else {
        -((-a) / b)
    }
}

/// Remainder of division truncated toward zero.
pub open spec fn trem(a: int, b: int) -> int {
    a - b * tdiv(a, b)
}

/// A count rendered in decimal with its sign.
pub open spec fn int_str(v: int) -> Seq<char> {
    if v >= 0 {
        dec_digits(v as nat)
    } else {
        seq!['-'] + dec_digits((-v) as nat)
    }
}

/// A number of at most two digits, zero-padded on the left to two
/// characters; wider or negative renderings are kept as they are.
pub open spec fn pad2_fill(v: int) -> Seq<char> {
    if 0 <= v < 10 {
        seq!['0'] + dec_digits(v as nat)
    } else {
        int_str(v)
    }
}

/// A clock field zero-padded to two digits.
pub open spec fn pad2(n: nat) -> Seq<char> {
    if n < 10 {
        seq!['0'] + dec_digits(n)
    } else {
        dec_digits(n)
    }
}

/// The clock format of the footer: month and day, then hours, minutes and
/// seconds, each zero-padded to two digits.
pub open spec fn clock_fmt(s: Stamp) -> Seq<char> {
    pad2(s.month as nat) + seq!['/'] + pad2(s.day as nat) + seq![' '] + pad2(s.hour as nat)
        + seq![':'] + pad2(s.minute as nat) + seq![':'] + pad2(s.second as nat)
}

/// The duration format of the footer, from a signed nanosecond count:
/// whole hours with leftover minutes when at least an hour has passed,
/// whole minutes with leftover seconds when at least a minute has, and
/// otherwise seconds with two digits of centiseconds.
pub open spec fn duration_fmt(ns: int) -> Seq<char> {
    let hours = tdiv(ns, 3_600_000_000_000);
    let minutes = tdiv(ns, 60_000_000_000);
    let seconds = tdiv(ns, 1_000_000_000);
    let millis = tdiv(ns, 1_000_000);
    if hours > 0 {
        int_str(hours) + seq!['h'] + int_str(trem(minutes, 60)) + seq!['m']
    } else if minutes > 0 {
        int_str(minutes) + seq!['m'] + int_str(trem(seconds, 60)) + seq!['s']
    } else {
        int_str(seconds) + seq!['.'] + pad2_fill(tdiv(trem(millis, 1000), 10)) + seq!['s']
    }
}

/// Relies on chrono's `Local::now` with the `Datelike` and `Timelike`
/// accessors: month runs 1 to 12, day 1 to 31, hour to 23, minute and
/// second to 59, and nanoseconds stay below two billion.
#[verifier::external_body]
fn now_stamp() -> (s: Stamp)
    ensures
        s.wf(),
{
    let n = chrono::Local::now();
    Stamp {
        year: n.year(),
        month: n.month() as u8,
        day: n.day() as u8,
        hour: n.hour() as u8,
        minute: n.minute() as u8,
        second: n.second() as u8,
        nanos: n.nanosecond(),
    }
}

fn push_pad2(v: &mut Vec<char>, n: u8)
    requires
        n < 100,
    ensures
        final(v)@ == old(v)@ + pad2(n as nat),
{
    if n < 10 {
        v.push('0');
    }
    push_dec(v, n);
    proof {
        assert(final(v)@ =~= old(v)@ + pad2(n as nat));
    }
}

fn format_stamp(s: &Stamp) -> (r: String)
    requires
        s.wf(),
    ensures
        r@ == clock_fmt(*s),
{
    let mut buf: Vec<char> = Vec::new();
    push_pad2(&mut buf, s.month);
    buf.push('/');
    push_pad2(&mut buf, s.day);
    buf.push(' ');
    push_pad2(&mut buf, s.hour);
    buf.push(':');
    push_pad2(&mut buf, s.minute);
    buf.push(':');
    push_pad2(&mut buf, s.second);
    proof {
        assert(buf@ =~= clock_fmt(*s));
    }
    chars_to_string(&buf)
}

/// Seconds since 1970-01-01 00:00:00 of a stamp, computed as the model
/// states it.
fn stamp_secs_exec(s: &Stamp) -> (r: i128)
    requires
        s.wf(),
    ensures
        r == stamp_secs(*s),
{
    let y: i128 = s.year as i128;
    let m: i128 = s.month as i128;
    let y2: i128 = if s.month <= 2 {
        y - 1
    } else {
        y
    };
    let yy: i128 = y2 + 2147484000;
    let yyu: u128 = yy as u128;
    let era_s: u128 = yyu / 400;
    let yoe: u128 = yyu % 400;
    proof {
        assert(era_s * 400 + yoe == yyu);
        assert(yoe == yy - (yy / 400) * 400);
        assert(era_s == yy / 400);
    }
    let mp: u128 = (s.month as u128 + 9) % 12;
    let doy: u128 = (153 * mp + 2) / 5 + s.day as u128 - 1;
    let doe: u128 = yoe * 365 + yoe / 4 - yoe / 100 + doy;
    let days: i128 = era_s as i128 * 146097 - 5368710i128 * 146097 + doe as i128 - 719468;
    let secs: i128 = days * 86400 + s.hour as i128 * 3600 + s.minute as i128 * 60
        + s.second as i128;
    secs
}

/// A stamp's wall-clock reading stays within a tenth of a quintillion
/// seconds of the epoch, so nanosecond spans between stamps fit far inside
/// an `i128`.
proof fn lemma_stamp_secs_bound(s: Stamp)
    requires
        s.wf(),
    ensures
        -100_000_000_000_000_000_000 <= stamp_secs(s) <= 100_000_000_000_000_000_000,
{
    let y = s.year as int;
    let m = s.month as int;
    let y2 = if m <= 2 {
        y - 1
    } else {
        y
    };
    let yy = y2 + 2147484000;
    assert(351 <= yy <= 4294967647);
    lemma_div_pos_is_pos(yy, 400);
    lemma_fundamental_div_mod(yy, 400);
    lemma_mod_pos_bound(yy, 400);
    assert(0 <= yy / 400 <= yy);
    assert(yy - (yy / 400) * 400 == yy % 400);
    lemma_mod_pos_bound(m + 9, 12);
    let mp = (m + 9) % 12;
    assert(0 <= mp < 12);
    lemma_div_pos_is_pos(153 * mp + 2, 5);
    lemma_div_is_ordered(153 * mp + 2, 1685, 5);
    assert(1685int / 5 == 337);
    let yoe = yy - (yy / 400) * 400;
    lemma_div_pos_is_pos(yoe, 4);
    lemma_div_pos_is_pos(yoe, 100);
    lemma_div_is_ordered(yoe, 400, 4);
    lemma_div_is_ordered(yoe / 100, yoe, 1);
    lemma_fundamental_div_mod(yoe, 100);
    lemma_mod_pos_bound(yoe, 100);
    assert(yoe / 100 * 100 <= yoe);
    assert(yoe / 100 <= yoe);
}

/// The elapsed-time tracker: running from a start stamp, or ended with a
/// start and an end stamp.
#[derive(Clone, Copy, Debug)]
pub enum Timer {
    Measuring(Stamp),
    Ended(Stamp, Stamp),
}

impl Timer {
    pub open spec fn wf(&self) -> bool {
        match *self {
            Timer::Measuring(s) => s.wf(),
            Timer::Ended(s, e) => s.wf() && e.wf(),
        }
    }

    /// The stamp measurement began at.
    pub open spec fn start_of(&self) -> Stamp {
        match *self {
            Timer::Measuring(s) => s,
            Timer::Ended(s, _) => s,
        }
    }

    /// Begins measuring now.
    pub fn start() -> (t: Timer)
        ensures
            t.wf(),
            t is Measuring,
    {
        Timer::Measuring(now_stamp())
    }

    /// Ends the measurement now, keeping the original start; a timer that
    /// had already ended gets a fresh end stamp.
    pub fn finish(&mut self)
        requires
            old(self).wf(),
        ensures
            final(self).wf(),
            *final(self) is Ended,
            final(self).start_of() == old(self).start_of(),
    {
        match self {
            Timer::Measuring(start_time) => {
                *self = Timer::Ended(*start_time, now_stamp());
            },
            Timer::Ended(_, end_time) => {
                *end_time = now_stamp();
            },
        }
    }

    /// The start stamp in clock format.
    pub fn formatted_start(&self) -> (r: String)
        requires
            self.wf(),
        ensures
            r@ == clock_fmt(self.start_of()),
    {
        match self {
            Timer::Measuring(start_time) => format_stamp(start_time),
            Timer::Ended(start_time, _) => format_stamp(start_time),
        }
    }

    /// The end stamp in clock format; while still measuring, the clock's
    /// present reading.
    pub fn formatted_end(&self) -> (r: String)
        requires
            self.wf(),
        ensures
            *self is Ended ==> r@ == clock_fmt(self->Ended_1),
            *self is Measuring ==> exists|n: Stamp| n.wf() && r@ == clock_fmt(n),
    {
        match self {
            Timer::Measuring(_) => {
                let n = now_stamp();
                let r = format_stamp(&n);
                proof {
                    assert(n.wf() && r@ == clock_fmt(n));
                }
                r
            },
            Timer::Ended(_, end_time) => format_stamp(end_time),
        }
    }

    /// The measured span in nanoseconds: end minus start, with the clock's
    /// present reading as the end while still measuring.
    fn duration_ns(&self) -> (r: i128)
        requires
            self.wf(),
        ensures
            *self is Ended ==> r == dur_ns(self->Ended_0, self->Ended_1),
            *self is Measuring ==> exists|n: Stamp|
                n.wf() && r == dur_ns(self->Measuring_0, n),
            -1_000_000_000_000_000_000_000_000_000_000 <= r
                <= 1_000_000_000_000_000_000_000_000_000_000,
    {
        match self {
            Timer::Measuring(start_time) => {
                let n = now_stamp();
                let a = stamp_secs_exec(start_time);
                let b = stamp_secs_exec(&n);
                proof {
                    lemma_stamp_secs_bound(*start_time);
                    lemma_stamp_secs_bound(n);
                }
                let r = (b - a) * 1_000_000_000 + n.nanos as i128 - start_time.nanos as i128;
                proof {
                    assert(n.wf() && r == dur_ns(self->Measuring_0, n));
                }
                r
            },
            Timer::Ended(start_time, end_time) => {
                let a = stamp_secs_exec(start_time);
                let b = stamp_secs_exec(end_time);
                proof {
                    lemma_stamp_secs_bound(*start_time);
                    lemma_stamp_secs_bound(*end_time);
                }
                (b - a) * 1_000_000_000 + end_time.nanos as i128 - start_time.nanos as i128
            },
        }
    }

    /// The measured span in duration format.
    pub fn formatted_duration(&self) -> (r: String)
        requires
            self.wf(),
        ensures
            *self is Ended ==> r@ == duration_fmt(dur_ns(self->Ended_0, self->Ended_1)),
            *self is Measuring ==> exists|n: Stamp|
                n.wf() && r@ == duration_fmt(dur_ns(self->Measuring_0, n)),
    {
        let ns = self.duration_ns();
        let r = format_duration_ns(ns);
        proof {
            if *self is Measuring {
                let n = choose|n: Stamp|
                    n.wf() && ns == dur_ns(self->Measuring_0, n);
                assert(n.wf() && r@ == duration_fmt(dur_ns(self->Measuring_0, n)));
            }
        }
        r
    }

    /// Whether the timer is still running.
    pub fn is_measuring(&self) -> (r: bool)
        ensures
            r == (*self is Measuring),
    {
        matches!(self, Timer::Measuring(_))
    }
}

/// Renders a signed nanosecond count in the footer's duration format.
fn format_duration_ns(ns: i128) -> (r: String)
    requires
        ns > i128::MIN,
    ensures
        r@ == duration_fmt(ns as int),
{
    let neg = ns < 0;
    let mag: u128 = if neg {
        (-ns) as u128
    } else {
        ns as u128
    };
    let hours_m: u128 = mag / 3_600_000_000_000;
    let minutes_m: u128 = mag / 60_000_000_000;
    let seconds_m: u128 = mag / 1_000_000_000;
    let millis_m: u128 = mag / 1_000_000;
    proof {
        if neg {
            assert(tdiv(ns as int, 3_600_000_000_000) == -(hours_m as int));
            assert(tdiv(ns as int, 60_000_000_000) == -(minutes_m as int));
            assert(tdiv(ns as int, 1_000_000_000) == -(seconds_m as int));
            assert(tdiv(ns as int, 1_000_000) == -(millis_m as int));
        }
    }
    let mut buf: Vec<char> = Vec::new();
    if !neg && hours_m > 0 {
        push_udec(&mut buf, hours_m);
        buf.push('h');
        let rem_min: u128 = minutes_m % 60;
        proof {
            assert(trem(minutes_m as int, 60) == rem_min as int);
        }
        push_udec(&mut buf, rem_min);
        buf.push('m');
        proof {
            assert(buf@ =~= duration_fmt(ns as int));
        }
    } else if !neg && minutes_m > 0 {
        push_udec(&mut buf, minutes_m);
        buf.push('m');
        let rem_sec: u128 = seconds_m % 60;
        proof {
            assert(trem(seconds_m as int, 60) == rem_sec as int);
        }
        push_udec(&mut buf, rem_sec);
        buf.push('s');
        proof {
            assert(buf@ =~= duration_fmt(ns as int));
        }
    } else {
        if neg && seconds_m > 0 {
            buf.push('-');
        }
        push_udec(&mut buf, seconds_m);
        buf.push('.');
        let cent: u128 = millis_m % 1000 / 10;
        proof {
            if neg {
                assert(trem(-(millis_m as int), 1000) == -((millis_m as int) % 1000));
                assert(tdiv(-((millis_m as int) % 1000), 10) == -(cent as int));
            } else {
                assert(trem(millis_m as int, 1000) == (millis_m as int) % 1000);
            }
        }
        if neg && cent > 0 {
            buf.push('-');
            push_udec(&mut buf, cent);
        } else if cent < 10 {
            buf.push('0');
            push_udec(&mut buf, cent);
        } else {
            push_udec(&mut buf, cent);
        }
        buf.push('s');
        proof {
            assert(buf@ =~= duration_fmt(ns as int));
        }
    }
    chars_to_string(&buf)
}

} // verus!
