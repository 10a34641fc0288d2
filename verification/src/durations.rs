//! Lengths of time, and how the pages put them into words.

use vstd::prelude::*;
use crate::text::{decimal, push_decimal};

verus! {

/// Nanoseconds in a millisecond.
pub const NANOS_PER_MILLI: i128 = 1_000_000;

/// Nanoseconds in a second.
pub const NANOS_PER_SECOND: i128 = 1_000_000_000;

/// Nanoseconds in a minute.
pub const NANOS_PER_MINUTE: i128 = 60_000_000_000;

/// Nanoseconds in an hour.
pub const NANOS_PER_HOUR: i128 = 3_600_000_000_000;

/// Nanoseconds in a day.
pub const NANOS_PER_DAY: i128 = 86_400_000_000_000;

/// The largest length of time, in nanoseconds: `i64::MAX` milliseconds. The
/// shortest is its negation.
pub const MAX_SPAN_NANOS: i128 = 9_223_372_036_854_775_807_000_000;

/// A signed length of time with nanosecond precision, within `i64::MAX`
/// milliseconds either way (the range of `chrono::TimeDelta`).
#[derive(Clone, Copy, Debug, PartialEq, Eq)]
pub struct TimeSpan {
    nanos: i128,
}

impl View for TimeSpan {
    type V = int;

    /// The length in nanoseconds.
    closed spec fn view(&self) -> int {
        self.nanos as int
    }
}

impl TimeSpan {
    #[verifier::type_invariant]
    closed spec fn inv(&self) -> bool {
        -MAX_SPAN_NANOS <= self.nanos <= MAX_SPAN_NANOS
    }

    /// The length of time `secs` seconds plus `nanos` nanoseconds, or `None` when
    /// `nanos` is a second or more or the length is out of range (as `TimeDelta::new`).
    pub fn new(secs: i64, nanos: u32) -> (r: Option<TimeSpan>)
        ensures
            r matches Some(t) ==> t@ == secs * 1_000_000_000 + nanos,
            r is Some <==> nanos < 1_000_000_000 && -MAX_SPAN_NANOS <= secs * 1_000_000_000
                + nanos <= MAX_SPAN_NANOS,
    {
        if nanos >= 1_000_000_000 {
            return None;
        }
        let total = secs as i128 * 1_000_000_000 + nanos as i128;
        if total < -MAX_SPAN_NANOS || total > MAX_SPAN_NANOS {
            return None;
        }
        Some(TimeSpan { nanos: total })
    }

    /// The length of time `secs` whole seconds plus `subsec_nanos` nanoseconds, the two
    /// of the same sign as `TimeDelta::num_seconds` and `TimeDelta::subsec_nanos` give
    /// them; `None` when `subsec_nanos` is a second or more either way or the length is
    /// out of range.
    pub fn from_seconds_and_subsec_nanos(secs: i64, subsec_nanos: i32) -> (r: Option<TimeSpan>)
        ensures
            r matches Some(t) ==> t@ == secs * 1_000_000_000 + subsec_nanos,
            r is Some <==> -1_000_000_000 < subsec_nanos < 1_000_000_000 && -MAX_SPAN_NANOS
                <= secs * 1_000_000_000 + subsec_nanos <= MAX_SPAN_NANOS,
    {
        if subsec_nanos <= -1_000_000_000 || subsec_nanos >= 1_000_000_000 {
            return None;
        }
        let total = secs as i128 * 1_000_000_000 + subsec_nanos as i128;
        if total < -MAX_SPAN_NANOS || total > MAX_SPAN_NANOS {
            return None;
        }
        Some(TimeSpan { nanos: total })
    }

    /// The whole milliseconds in the length, rounded toward zero
    /// (`TimeDelta::num_milliseconds`).
    pub fn num_milliseconds(&self) -> (r: i64)
        ensures
            r == if self@ >= 0 {
                self@ / 1_000_000
            } else {
                -((-self@) / 1_000_000)
            },
    {
        proof { use_type_invariant(self); }
        let t = self.nanos;
        if t >= 0 {
            (t / 1_000_000) as i64
        } else {
            let m = (-t) / 1_000_000;
            -(m as i64)
        }
    }

    /// The length as whole seconds (rounded down) and the nanoseconds beyond them,
    /// the way `TimeDelta` holds it.
    pub fn seconds_and_nanos(&self) -> (r: (i64, u32))
        ensures
            r.0 == self@ / 1_000_000_000,
            r.1 == self@ % 1_000_000_000,
    {
        proof { use_type_invariant(self); }
        let t = self.nanos;
        if t >= 0 {
            ((t / 1_000_000_000) as i64, (t % 1_000_000_000) as u32)
        } else {
            let u = -t;
            let q = u / 1_000_000_000;
            let rem = u % 1_000_000_000;
            if rem == 0 {
                (-(q as i64), 0)
            } else {
                (-(q as i64) - 1, (1_000_000_000 - rem) as u32)
            }
        }
    }

    /// The length in nanoseconds.
    pub fn total_nanos(&self) -> (r: i128)
        ensures
            r == self@,
            -MAX_SPAN_NANOS <= r <= MAX_SPAN_NANOS,
    {
        proof { use_type_invariant(self); }
        self.nanos
    }
}

/// Words joined with single spaces.
pub open spec fn join_words(parts: Seq<Seq<char>>) -> Seq<char>
    decreases parts.len(),
{
    if parts.len() == 0 {
        seq![]
    } else if parts.len() == 1 {
        parts[0]
    } else {
        join_words(parts.drop_last()) + seq![' '] + parts.last()
    }
}

/// The word for `count` units with the abbreviation `suffix`, present only when the
/// count is not zero.
pub open spec fn unit_word(count: int, suffix: Seq<char>) -> Seq<Seq<char>> {
    if count > 0 {
        seq![decimal(count as nat) + suffix]
    } else {
        seq![]
    }
}

/// The words for a length of `t` nanoseconds: whole days, then the hours, minutes,
/// seconds and milliseconds left over, each only when not zero. A negative length
/// has no words.
pub open spec fn duration_words(t: int) -> Seq<Seq<char>> {
    if t < 0 {
        seq![]
    } else {
        unit_word(t / NANOS_PER_DAY as int, seq!['d'])
            + unit_word(t % NANOS_PER_DAY as int / NANOS_PER_HOUR as int, seq!['h'])
            + unit_word(t % NANOS_PER_HOUR as int / NANOS_PER_MINUTE as int, seq!['m'])
            + unit_word(t % NANOS_PER_MINUTE as int / NANOS_PER_SECOND as int, seq!['s'])
            + unit_word(t % NANOS_PER_SECOND as int / NANOS_PER_MILLI as int, seq!['m', 's'])
    }
}

/// Joining words: no words give nothing, one word gives itself, and each further
/// word comes after a single space.
pub proof fn lemma_join_words_spaces(ws: Seq<Seq<char>>, w: Seq<char>)
    ensures
        join_words(seq![]) == Seq::<char>::empty(),
        join_words(seq![w]) == w,
        ws.len() > 0 ==> join_words(ws.push(w)) == join_words(ws) + seq![' '] + w,
{
    lemma_join_words_push(ws, w);
    lemma_join_words_push(seq![], w);
    assert(seq![w] =~= Seq::<Seq<char>>::empty().push(w));
}

proof fn lemma_join_words_push(parts: Seq<Seq<char>>, w: Seq<char>)
    ensures
        join_words(parts.push(w)) == if parts.len() == 0 {
            w
        } else {
            join_words(parts) + seq![' '] + w
        },
{
    assert(parts.push(w).drop_last() =~= parts);
}

fn push_unit(
    s: &mut String,
    count: i128,
    suffix: &str,
    started: bool,
    Ghost(parts): Ghost<Seq<Seq<char>>>,
) -> (any: bool)
    requires
        old(s)@ == join_words(parts),
        started == (parts.len() > 0),
        0 <= count <= u64::MAX,
    ensures
        final(s)@ == join_words(parts + unit_word(count as int, suffix@)),
        any == ((parts + unit_word(count as int, suffix@)).len() > 0),
{
    if count > 0 {
        proof { reveal_strlit(" "); }
        if started {
            s.append(" ");
        }
        push_decimal(s, count as u64);
        s.append(suffix);
        proof { lemma_join_words_push(parts, decimal(count as nat) + suffix@); }
        assert(parts + unit_word(count as int, suffix@) =~= parts.push(decimal(count as nat) + suffix@));
        assert(s@ =~= join_words(parts + unit_word(count as int, suffix@)));
        true
    } else {
        assert(parts + unit_word(count as int, suffix@) =~= parts);
        started
    }
}

/// A length of time in words, such as `1d 2h 3m 4s 5ms`; units that come to zero are
/// left out, and a length below a millisecond, or negative, gives no words at all.
pub fn human_readable_duration(duration: TimeSpan) -> (r: String)
    ensures
        r@ == join_words(duration_words(duration@)),
{
    let t = duration.total_nanos();
    let mut s = String::new();
    if t < 0 {
        assert(s@ =~= join_words(seq![]));
        return s;
    }
    proof {
        reveal_strlit("d");
        reveal_strlit("h");
        reveal_strlit("m");
        reveal_strlit("s");
        reveal_strlit("ms");
    }
    assert("d"@ =~= seq!['d']);
    assert("h"@ =~= seq!['h']);
    assert("m"@ =~= seq!['m']);
    assert("s"@ =~= seq!['s']);
    assert("ms"@ =~= seq!['m', 's']);
    let ghost ti = t as int;
    let ghost w0: Seq<Seq<char>> = seq![];
    assert(s@ =~= join_words(w0));
    let any = push_unit(&mut s, t / NANOS_PER_DAY, "d", false, Ghost(w0));
    let ghost w1 = w0 + unit_word(ti / NANOS_PER_DAY as int, seq!['d']);
    let any = push_unit(&mut s, t % NANOS_PER_DAY / NANOS_PER_HOUR, "h", any, Ghost(w1));
    let ghost w2 = w1 + unit_word(ti % NANOS_PER_DAY as int / NANOS_PER_HOUR as int, seq!['h']);
    let any = push_unit(&mut s, t % NANOS_PER_HOUR / NANOS_PER_MINUTE, "m", any, Ghost(w2));
    let ghost w3 = w2 + unit_word(ti % NANOS_PER_HOUR as int / NANOS_PER_MINUTE as int, seq!['m']);
    let any = push_unit(&mut s, t % NANOS_PER_MINUTE / NANOS_PER_SECOND, "s", any, Ghost(w3));
    let ghost w4 = w3 + unit_word(ti % NANOS_PER_MINUTE as int / NANOS_PER_SECOND as int, seq!['s']);
    let _ = push_unit(&mut s, t % NANOS_PER_SECOND / NANOS_PER_MILLI, "ms", any, Ghost(w4));
    assert(w4 + unit_word(ti % NANOS_PER_SECOND as int / NANOS_PER_MILLI as int, seq!['m', 's'])
        =~= duration_words(ti));
    s
}

/// The words of a length of time are its whole days, then the hours, minutes, seconds
/// and milliseconds left over: given any counts `d`, `h`, `m`, `s`, `ms` (each below
/// the next unit up) that make up the length down to the millisecond, the words are
/// `{d}d`, `{h}h`, `{m}m`, `{s}s` and `{ms}ms` in this order, each present exactly when
/// its count is not zero.
pub proof fn lemma_duration_words_are_the_decomposition(
    t: int,
    d: nat,
    h: nat,
    m: nat,
    s: nat,
    ms: nat,
)
    requires
        h < 24,
        m < 60,
        s < 60,
        ms < 1000,
        d * NANOS_PER_DAY + h * NANOS_PER_HOUR + m * NANOS_PER_MINUTE + s * NANOS_PER_SECOND + ms
            * NANOS_PER_MILLI <= t,
        t < d * NANOS_PER_DAY + h * NANOS_PER_HOUR + m * NANOS_PER_MINUTE + s * NANOS_PER_SECOND + (
        ms + 1) * NANOS_PER_MILLI,
    ensures
        duration_words(t) == (if d > 0 {
            seq![decimal(d) + seq!['d']]
        } else {
            seq![]
        }) + (if h > 0 {
            seq![decimal(h) + seq!['h']]
        } else {
            seq![]
        }) + (if m > 0 {
            seq![decimal(m) + seq!['m']]
        } else {
            seq![]
        }) + (if s > 0 {
            seq![decimal(s) + seq!['s']]
        } else {
            seq![]
        }) + (if ms > 0 {
            seq![decimal(ms) + seq!['m', 's']]
        } else {
            seq![]
        }),
{
    let day = NANOS_PER_DAY as int;
    let hour = NANOS_PER_HOUR as int;
    let minute = NANOS_PER_MINUTE as int;
    let second = NANOS_PER_SECOND as int;
    let milli = NANOS_PER_MILLI as int;
    assert(t >= 0);
    let rd = t - d * day;
    assert(0 <= rd < day);
    assert(t / day == d && t % day == rd);
    let rh = rd - h * hour;
    assert(0 <= rh < hour);
    assert(rd / hour == h);
    assert(t % hour == rh) by {
        assert(t == (d * 24 + h) * hour + rh);
    }
    let rm = rh - m * minute;
    assert(0 <= rm < minute);
    assert(rh / minute == m);
    assert(t % minute == rm) by {
        assert(t == ((d * 24 + h) * 60 + m) * minute + rm);
    }
    let rs = rm - s * second;
    assert(0 <= rs < second);
    assert(rm / second == s);
    assert(t % second == rs) by {
        assert(t == (((d * 24 + h) * 60 + m) * 60 + s) * second + rs);
    }
    assert(rs / milli == ms);
}

/// A length of time shorter than a millisecond, negative ones included, has no words.
pub proof fn lemma_lengths_below_a_millisecond_have_no_words(t: int)
    requires
        t < NANOS_PER_MILLI,
    ensures
        duration_words(t) == Seq::<Seq<char>>::empty(),
{
    if t >= 0 {
        lemma_duration_words_are_the_decomposition(t, 0, 0, 0, 0, 0);
        assert(duration_words(t) =~= Seq::<Seq<char>>::empty());
    }
}

/// How long ago, in words: under a minute (or in the future) it is `just now`;
/// otherwise it is `n minute(s) ago`, `n hour(s) ago` or `n day(s) ago` in the
/// largest unit of which at least one has passed, `n` being the whole number of
/// those units that have passed.
pub proof fn lemma_relative_time_counts_whole_units(t: int, n: nat)
    ensures
        t < NANOS_PER_MINUTE ==> relative_time_words(t) == seq!['j', 'u', 's', 't', ' ', 'n', 'o', 'w'],
        t < NANOS_PER_HOUR && n * NANOS_PER_MINUTE <= t < (n + 1) * NANOS_PER_MINUTE && n >= 1
            ==> relative_time_words(t) == decimal(n) + seq![' ', 'm', 'i', 'n', 'u', 't', 'e'] + (
        if n == 1 {
            seq![]
        } else {
            seq!['s']
        }) + seq![' ', 'a', 'g', 'o'],
        t < NANOS_PER_DAY && n * NANOS_PER_HOUR <= t < (n + 1) * NANOS_PER_HOUR && n >= 1
            ==> relative_time_words(t) == decimal(n) + seq![' ', 'h', 'o', 'u', 'r'] + (if n == 1 {
            seq![]
        } else {
            seq!['s']
        }) + seq![' ', 'a', 'g', 'o'],
        n * NANOS_PER_DAY <= t < (n + 1) * NANOS_PER_DAY && n >= 1 ==> relative_time_words(t)
            == decimal(n) + seq![' ', 'd', 'a', 'y'] + (if n == 1 {
            seq![]
        } else {
            seq!['s']
        }) + seq![' ', 'a', 'g', 'o'],
{
    if t < NANOS_PER_HOUR && n * NANOS_PER_MINUTE <= t < (n + 1) * NANOS_PER_MINUTE && n >= 1 {
        assert(t / NANOS_PER_MINUTE as int == n);
        assert(relative_time_words(t) =~= decimal(n) + seq![' ', 'm', 'i', 'n', 'u', 't', 'e'] + (
        if n == 1 {
            seq![]
        } else {
            seq!['s']
        }) + seq![' ', 'a', 'g', 'o']);
    }
    if t < NANOS_PER_DAY && n * NANOS_PER_HOUR <= t < (n + 1) * NANOS_PER_HOUR && n >= 1 {
        assert(t / NANOS_PER_HOUR as int == n);
        assert(relative_time_words(t) =~= decimal(n) + seq![' ', 'h', 'o', 'u', 'r'] + (if n == 1 {
            seq![]
        } else {
            seq!['s']
        }) + seq![' ', 'a', 'g', 'o']);
    }
    if n * NANOS_PER_DAY <= t < (n + 1) * NANOS_PER_DAY && n >= 1 {
        assert(t / NANOS_PER_DAY as int == n);
        assert(relative_time_words(t) =~= decimal(n) + seq![' ', 'd', 'a', 'y'] + (if n == 1 {
            seq![]
        } else {
            seq!['s']
        }) + seq![' ', 'a', 'g', 'o']);
    }
}

/// The words of a length of time account for all of it down to the millisecond:
/// days, hours, minutes, seconds and milliseconds, each below the next unit up,
/// add back up to the length with its sub-millisecond rest cut off.
pub proof fn lemma_duration_words_add_up(t: int)
    requires
        t >= 0,
    ensures
        ({
            let d = t / NANOS_PER_DAY as int;
            let h = t % NANOS_PER_DAY as int / NANOS_PER_HOUR as int;
            let m = t % NANOS_PER_HOUR as int / NANOS_PER_MINUTE as int;
            let s = t % NANOS_PER_MINUTE as int / NANOS_PER_SECOND as int;
            let ms = t % NANOS_PER_SECOND as int / NANOS_PER_MILLI as int;
            &&& 0 <= h < 24 && 0 <= m < 60 && 0 <= s < 60 && 0 <= ms < 1000
            &&& d * NANOS_PER_DAY + h * NANOS_PER_HOUR + m * NANOS_PER_MINUTE + s * NANOS_PER_SECOND
                + ms * NANOS_PER_MILLI == t - t % NANOS_PER_MILLI as int
        }),
{
    let d = t / NANOS_PER_DAY as int;
    let rd = t % NANOS_PER_DAY as int;
    let h = rd / NANOS_PER_HOUR as int;
    let rh = t % NANOS_PER_HOUR as int;
    let m = rh / NANOS_PER_MINUTE as int;
    let rm = t % NANOS_PER_MINUTE as int;
    let s = rm / NANOS_PER_SECOND as int;
    let rs = t % NANOS_PER_SECOND as int;
    let ms = rs / NANOS_PER_MILLI as int;
    let rms = t % NANOS_PER_MILLI as int;
    assert(t == d * NANOS_PER_DAY + rd);
    assert(rd == h * NANOS_PER_HOUR + rh) by {
        assert(t / NANOS_PER_HOUR as int == d * 24 + h);
    }
    assert(rh == m * NANOS_PER_MINUTE + rm) by {
        assert(t / NANOS_PER_MINUTE as int == (t / NANOS_PER_HOUR as int) * 60 + m);
    }
    assert(rm == s * NANOS_PER_SECOND + rs) by {
        assert(t / NANOS_PER_SECOND as int == (t / NANOS_PER_MINUTE as int) * 60 + s);
    }
    assert(rs == ms * NANOS_PER_MILLI + rms) by {
        assert(t / NANOS_PER_MILLI as int == (t / NANOS_PER_SECOND as int) * 1000 + ms);
    }
}


/// The plural ending for `n` of something.
pub open spec fn plural_ending(n: int) -> Seq<char> {
    if n == 1 {
        seq![]
    } else {
        seq!['s']
    }
}

/// `n` units ago, in words, such as `1 hour ago` or `3 hours ago`.
pub open spec fn units_ago(n: int, unit: Seq<char>) -> Seq<char> {
    decimal(n as nat) + seq![' '] + unit + plural_ending(n) + seq![' ', 'a', 'g', 'o']
}

/// How long ago something happened, `t` nanoseconds back: `just now` under a minute
/// (and for a time in the future), then whole minutes under an hour, whole hours under
/// a day, and whole days beyond.
pub open spec fn relative_time_words(t: int) -> Seq<char> {
    if t < NANOS_PER_MINUTE as int {
        seq!['j', 'u', 's', 't', ' ', 'n', 'o', 'w']
    } else if t < NANOS_PER_HOUR as int {
        units_ago(t / NANOS_PER_MINUTE as int, seq!['m', 'i', 'n', 'u', 't', 'e'])
    } else if t < NANOS_PER_DAY as int {
        units_ago(t / NANOS_PER_HOUR as int, seq!['h', 'o', 'u', 'r'])
    } else {
        units_ago(t / NANOS_PER_DAY as int, seq!['d', 'a', 'y'])
    }
}

fn units_ago_text(n: i128, unit: &str) -> (r: String)
    requires
        1 <= n <= u64::MAX,
    ensures
        r@ == units_ago(n as int, unit@),
{
    proof {
        reveal_strlit(" ");
        reveal_strlit("s");
        reveal_strlit(" ago");
    }
    let mut s = String::new();
    push_decimal(&mut s, n as u64);
    s.append(" ");
    s.append(unit);
    if n != 1 {
        s.append("s");
    }
    s.append(" ago");
    assert(s@ =~= units_ago(n as int, unit@));
    s
}

/// How long ago something happened, in words, given the time elapsed since.
pub fn relative_time(elapsed: TimeSpan) -> (r: String)
    ensures
        r@ == relative_time_words(elapsed@),
{
    let t = elapsed.total_nanos();
    proof {
        reveal_strlit("just now");
        reveal_strlit("minute");
        reveal_strlit("hour");
        reveal_strlit("day");
    }
    assert("minute"@ =~= seq!['m', 'i', 'n', 'u', 't', 'e']);
    assert("hour"@ =~= seq!['h', 'o', 'u', 'r']);
    assert("day"@ =~= seq!['d', 'a', 'y']);
    if t < NANOS_PER_MINUTE {
        assert("just now"@ =~= seq!['j', 'u', 's', 't', ' ', 'n', 'o', 'w']);
        String::from_str("just now")
    } else if t < NANOS_PER_HOUR {
        units_ago_text(t / NANOS_PER_MINUTE, "minute")
    } else if t < NANOS_PER_DAY {
        units_ago_text(t / NANOS_PER_HOUR, "hour")
    } else {
        units_ago_text(t / NANOS_PER_DAY, "day")
    }
}

} // verus!
