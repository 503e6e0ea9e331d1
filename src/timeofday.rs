use chrono::{NaiveTime, Timelike};
use vstd::arithmetic::div_mod::{lemma_add_mod_noop, lemma_mod_add_multiples_vanish, lemma_small_mod};
use vstd::prelude::*;

use crate::error::{AppError, AppErrorType};

verus! {

pub const SECONDS_PER_DAY: u32 = 86400;

/// Field values at or above this bound are all out of range, and are kept at it.
const FIELD_CAP: u32 = 1000;

/// A time of day, in whole seconds since midnight.
#[derive(PartialEq, Eq, Structural, Clone, Copy, Debug)]
pub struct TimeOfDay {
    pub secs: u32,
}

impl TimeOfDay {
    pub open spec fn wf(&self) -> bool {
        self.secs < SECONDS_PER_DAY
    }

    /// This time moved later by `delta` seconds, wrapping past midnight.
    pub fn plus_seconds(&self, delta: u32) -> (r: TimeOfDay)
        ensures
            r.wf(),
            r.secs == (self.secs + delta) % (SECONDS_PER_DAY as int),
    {
        let a = self.secs % SECONDS_PER_DAY;
        let d = delta % SECONDS_PER_DAY;
        let s = a + d;
        proof {
            lemma_add_mod_noop(self.secs as int, delta as int, SECONDS_PER_DAY as int);
            if s >= SECONDS_PER_DAY {
                lemma_mod_add_multiples_vanish(s - SECONDS_PER_DAY, SECONDS_PER_DAY as int);
                lemma_small_mod((s - SECONDS_PER_DAY) as nat, SECONDS_PER_DAY as nat);
            } else {
                lemma_small_mod(s as nat, SECONDS_PER_DAY as nat);
            }
        }
        if s >= SECONDS_PER_DAY {
            TimeOfDay { secs: s - SECONDS_PER_DAY }
        } else {
            TimeOfDay { secs: s }
        }
    }

    /// The signed number of seconds from `earlier` to this time.
    pub fn seconds_since(&self, earlier: &TimeOfDay) -> (r: i64)
        ensures
            r == self.secs - earlier.secs,
    {
        self.secs as i64 - earlier.secs as i64
    }
}

/// Relies on chrono's `NaiveTime::from_hms_opt`, which gives a time exactly when
/// hour < 24, minute < 60 and second < 60, and on `num_seconds_from_midnight`,
/// which reads that time back as seconds since midnight.
#[verifier::external_body]
fn seconds_of_hms(hour: u32, min: u32, sec: u32) -> (r: Option<u32>)
    ensures
        r == (if hour < 24 && min < 60 && sec < 60 {
            Some((hour * 3600 + min * 60 + sec) as u32)
        } else {
            None
        }),
{
    match NaiveTime::from_hms_opt(hour, min, sec) {
        Some(t) => Some(t.num_seconds_from_midnight()),
        None => None,
    }
}

pub open spec fn is_digit(c: char) -> bool {
    '0' <= c && c <= '9'
}

/// A non-empty run of decimal digits.
pub open spec fn numeral(s: Seq<char>) -> bool {
    s.len() > 0 && forall|i: int| 0 <= i < s.len() ==> is_digit(#[trigger] s[i])
}

/// The number that a run of decimal digits writes.
pub open spec fn digits_value(s: Seq<char>) -> nat
    decreases s.len(),
{
    if s.len() == 0 {
        0
    } else {
        digits_value(s.drop_last()) * 10 + (s.last() as nat - '0' as nat) as nat
    }
}

/// The end of the colon-separated field that begins at `start`.
pub open spec fn field_end(s: Seq<char>, start: int) -> int
    decreases s.len() - start,
{
    if start >= s.len() || start < 0 {
        s.len() as int
    } else if s[start] == ':' {
        start
    } else {
        field_end(s, start + 1)
    }
}

/// The value of the field at `start` when it is a numeral below `limit`.
pub open spec fn field_below(s: Seq<char>, start: int, limit: nat) -> Option<nat> {
    let f = s.subrange(start, field_end(s, start));
    if numeral(f) && digits_value(f) < limit {
        Some(digits_value(f))
    } else {
        None
    }
}

/// Seconds since midnight written as `H:M`, where further fields are ignored.
pub open spec fn hm_seconds(s: Seq<char>) -> Option<nat> {
    let e0 = field_end(s, 0);
    if e0 < s.len() {
        match (field_below(s, 0, 24), field_below(s, e0 + 1, 60)) {
            (Some(h), Some(m)) => Some(h * 3600 + m * 60),
            _ => None,
        }
    } else {
        None
    }
}

/// Seconds since midnight written as `H:M:S`, where further fields are ignored.
pub open spec fn hms_seconds(s: Seq<char>) -> Option<nat> {
    let e0 = field_end(s, 0);
    let e1 = field_end(s, e0 + 1);
    if e0 < s.len() && e1 < s.len() {
        match (field_below(s, 0, 24), field_below(s, e0 + 1, 60), field_below(s, e1 + 1, 60)) {
            (Some(h), Some(m), Some(sec)) => Some(h * 3600 + m * 60 + sec),
            _ => None,
        }
    } else {
        None
    }
}

proof fn lemma_digits_step(s: Seq<char>, start: int, i: int)
    requires
        0 <= start <= i < s.len(),
    ensures
        digits_value(s.subrange(start, i + 1)) == digits_value(s.subrange(start, i)) * 10 + (
        s[i] as nat - '0' as nat) as nat,
{
    assert(s.subrange(start, i + 1).drop_last() =~= s.subrange(start, i));
}

/// Reads the field at `start`: where it ends, and its value capped at
/// `FIELD_CAP` when it is a numeral.
fn read_field(s: &str, n: usize, start: usize) -> (r: (usize, Option<u32>))
    requires
        n == s@.len(),
        start <= n,
    ensures
        r.0 == field_end(s@, start as int),
        start <= r.0 <= n,
        ({
            let f = s@.subrange(start as int, r.0 as int);
            match r.1 {
                Some(v) => numeral(f) && v == (if digits_value(f) < FIELD_CAP {
                    digits_value(f)
                } else {
                    FIELD_CAP as nat
                }),
                None => !numeral(f),
            }
        }),
{
    let mut i: usize = start;
    let mut all_digits = true;
    let mut v: u32 = 0;
    while i < n && s.get_char(i) != ':'
        invariant
            n == s@.len(),
            start <= i <= n,
            field_end(s@, start as int) == field_end(s@, i as int),
            all_digits == forall|j: int| start <= j < i ==> is_digit(#[trigger] s@[j]),
            all_digits ==> v == (if digits_value(s@.subrange(start as int, i as int)) < FIELD_CAP {
                digits_value(s@.subrange(start as int, i as int))
            } else {
                FIELD_CAP as nat
            }),
        decreases n - i,
    {
        let c = s.get_char(i);
        if '0' <= c && c <= '9' {
            if all_digits {
                proof {
                    lemma_digits_step(s@, start as int, i as int);
                }
                let d = (c as u32) - ('0' as u32);
                if v < FIELD_CAP {
                    let w = v * 10 + d;
                    v = if w < FIELD_CAP { w } else { FIELD_CAP };
                } else {
                    proof {
                        assert(digits_value(s@.subrange(start as int, i as int)) * 10 >= FIELD_CAP)
                            by (nonlinear_arith)
                            requires
                                digits_value(s@.subrange(start as int, i as int)) >= FIELD_CAP,
                        ;
                    }
                }
            }
        } else {
            all_digits = false;
        }
        i = i + 1;
    }
    let f = Ghost(s@.subrange(start as int, i as int));
    if all_digits && i > start {
        (i, Some(v))
    } else {
        proof {
            if i > start {
                let j = choose|j: int| start <= j < i && !is_digit(s@[j]);
                assert(f@[j - start] == s@[j]);
            }
        }
        (i, None)
    }
}

/// Reads the field at `start` when it is a numeral below `limit`.
fn field_value(s: &str, n: usize, start: usize, limit: u32) -> (r: (usize, Option<u32>))
    requires
        n == s@.len(),
        start <= n,
        limit <= FIELD_CAP,
    ensures
        r.0 == field_end(s@, start as int),
        start <= r.0 <= n,
        match r.1 {
            Some(v) => field_below(s@, start as int, limit as nat) == Some(v as nat),
            None => field_below(s@, start as int, limit as nat).is_none(),
        },
{
    let (end, v) = read_field(s, n, start);
    match v {
        Some(v) => if v < limit {
            (end, Some(v))
        } else {
            (end, None)
        },
        None => (end, None),
    }
}

/// The error for text that is not a time of day.
pub open spec fn invalid_time_error(e: AppError) -> bool {
    &&& e.error_type == AppErrorType::InvalidTimeFormat
    &&& e.message.is_some()
    &&& e.message.unwrap()@ == "Invalid time format"@
    &&& e.cause.is_none()
}

/// Seconds since midnight written as `H:M:S` when the text has a third field,
/// else as `H:M`.
pub open spec fn time_of_day_seconds(s: Seq<char>) -> Option<nat> {
    let e0 = field_end(s, 0);
    if e0 < s.len() && field_end(s, e0 + 1) < s.len() {
        hms_seconds(s)
    } else {
        hm_seconds(s)
    }
}

/// Parses a time written `HH:MM` or `HH:MM:SS`.
pub fn parse_time_of_day(time: String) -> (r: Result<TimeOfDay, AppError>)
    ensures
        match r {
            Ok(t) => t.wf() && time_of_day_seconds(time@) == Some(t.secs as nat),
            Err(e) => time_of_day_seconds(time@).is_none() && invalid_time_error(e),
        },
{
    let n = time.as_str().unicode_len();
    let (e0, _h) = read_field(time.as_str(), n, 0);
    if e0 < n {
        let (e1, _m) = read_field(time.as_str(), n, e0 + 1);
        if e1 < n {
            return to_naive_time_hms(time);
        }
    }
    to_naive_time_hm(time)
}

/// Parses a time written `HH:MM`; fields after the second are ignored.
pub fn to_naive_time_hm(time: String) -> (r: Result<TimeOfDay, AppError>)
    ensures
        match r {
            Ok(t) => t.wf() && hm_seconds(time@) == Some(t.secs as nat),
            Err(e) => hm_seconds(time@).is_none() && invalid_time_error(e),
        },
{
    let s = time.as_str();
    let n = s.unicode_len();
    let (e0, h) = field_value(s, n, 0, 24);
    if e0 >= n {
        return Err(AppError::invalid_time());
    }
    let (_e1, m) = field_value(s, n, e0 + 1, 60);
    match (h, m) {
        (Some(h), Some(m)) => match seconds_of_hms(h, m, 0) {
            Some(secs) => Ok(TimeOfDay { secs }),
            None => Err(AppError::invalid_time()),
        },
        _ => Err(AppError::invalid_time()),
    }
}

/// Parses a time written `HH:MM:SS`; fields after the third are ignored.
pub fn to_naive_time_hms(time: String) -> (r: Result<TimeOfDay, AppError>)
    ensures
        match r {
            Ok(t) => t.wf() && hms_seconds(time@) == Some(t.secs as nat),
            Err(e) => hms_seconds(time@).is_none() && invalid_time_error(e),
        },
{
    let s = time.as_str();
    let n = s.unicode_len();
    let (e0, h) = field_value(s, n, 0, 24);
    if e0 >= n {
        return Err(AppError::invalid_time());
    }
    let (e1, m) = field_value(s, n, e0 + 1, 60);
    if e1 >= n {
        return Err(AppError::invalid_time());
    }
    let (_e2, sec) = field_value(s, n, e1 + 1, 60);
    match (h, m, sec) {
        (Some(h), Some(m), Some(sec)) => match seconds_of_hms(h, m, sec) {
            Some(secs) => Ok(TimeOfDay { secs }),
            None => Err(AppError::invalid_time()),
        },
        _ => Err(AppError::invalid_time()),
    }
}

} // verus!
