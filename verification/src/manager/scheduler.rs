//! Recurrence rules: reading a minimal RRULE (FREQ and INTERVAL) and
//! computing the next occurrence of a recurring entry.
use vstd::prelude::*;

use crate::dates::{
    date_before, is_leap_year, max_year, min_year, month_length,    day_before_first_of, day_shift, last_day_before, make_date, parse_ymd, shift_days,
    shift_weeks, valid_date, valid_ymd, week_shift, ymd_parse, ymd_text, format_ymd, CalendarDate,
};
use crate::converters::{kind_from_db, kind_of_db_text, parse_tags, split_tags, text_or_empty, DbEntry};
use crate::pb::service::entry::EntryKind;
use crate::text::{chars_of, opt_view, owned, split_seq, split_text, text_is, views};

verus! {

// ---------------------------------------------------------------------------
// Integers as `str::parse::<i64>` reads them
// ---------------------------------------------------------------------------

pub open spec fn is_digit(c: char) -> bool {
    48 <= (c as u32) <= 57
}

pub open spec fn all_digits(s: Seq<char>) -> bool {
    forall|i: int| 0 <= i < s.len() ==> is_digit(#[trigger] s[i])
}

/// The value of a string of decimal digits.
pub open spec fn digits_value(s: Seq<char>) -> int
    decreases s.len(),
{
    if s.len() == 0 {
        0
    } else {
        digits_value(s.drop_last()) * 10 + ((s.last() as u32) - 48)
    }
}

/// What `str::parse::<i64>` accepts: an optional `+` or `-`, then one or
/// more ASCII digits, with a value that fits in `i64`.
pub open spec fn parse_i64_spec(s: Seq<char>) -> Option<int> {
    let neg = s.len() > 0 && s[0] == '-';
    let body = if s.len() > 0 && (s[0] == '-' || s[0] == '+') {
        s.drop_first()
    } else {
        s
    };
    if body.len() == 0 || !all_digits(body) {
        None
    } else {
        let v = if neg {
            -digits_value(body)
        } else {
            digits_value(body)
        };
        if i64::MIN <= v <= i64::MAX {
            Some(v)
        } else {
            None
        }
    }
}

proof fn lemma_digits_value_grows(s: Seq<char>, k: int)
    requires
        0 <= k <= s.len(),
        all_digits(s),
    ensures
        digits_value(s.take(k)) <= digits_value(s),
        0 <= digits_value(s.take(k)),
    decreases s.len() - k,
{
    if k < s.len() {
        let t = s.drop_last();
        assert(t.take(k) =~= s.take(k));
        assert forall|i: int| 0 <= i < t.len() implies is_digit(#[trigger] t[i]) by {
            assert(t[i] == s[i]);
        }
        lemma_digits_value_grows(t, k);
        assert(is_digit(s[s.len() - 1]));
    } else {
        assert(s.take(k) =~= s);
        lemma_digits_value_nonneg(s);
    }
}

proof fn lemma_digits_value_nonneg(s: Seq<char>)
    requires
        all_digits(s),
    ensures
        digits_value(s) >= 0,
    decreases s.len(),
{
    if s.len() > 0 {
        let t = s.drop_last();
        assert forall|i: int| 0 <= i < t.len() implies is_digit(#[trigger] t[i]) by {
            assert(t[i] == s[i]);
        }
        lemma_digits_value_nonneg(t);
        assert(is_digit(s[s.len() - 1]));
    }
}

/// `s` read as an `i64`, as `str::parse::<i64>` reads it.
pub fn parse_i64(s: &str) -> (r: Option<i64>)
    ensures
        match r {
            Some(v) => parse_i64_spec(s@) == Some(v as int),
            None => parse_i64_spec(s@) is None,
        },
{
    let cs = chars_of(s);
    let n = cs.len();
    if n == 0 {
        return None;
    }
    let neg = cs[0] == '-';
    let start: usize = if cs[0] == '-' || cs[0] == '+' {
        1
    } else {
        0
    };
    let ghost body = if s@.len() > 0 && (s@[0] == '-' || s@[0] == '+') {
        s@.drop_first()
    } else {
        s@
    };
    proof {
        assert(body =~= s@.skip(start as int));
    }
    if start == n {
        return None;
    }
    let mut mag: u64 = 0;
    let mut i: usize = start;
    while i < n
        invariant
            start <= i <= n,
            n == cs@.len(),
            cs@ == s@,
            body == s@.skip(start as int),
            body == (if s@.len() > 0 && (s@[0] == '-' || s@[0] == '+') {
                s@.drop_first()
            } else {
                s@
            }),
            neg == (s@.len() > 0 && s@[0] == '-'),
            all_digits(body.take(i - start)),
            mag as int == digits_value(body.take(i - start)),
        decreases n - i,
    {
        let c = cs[i];
        let ghost pre = body.take(i - start);
        let ghost post = body.take(i - start + 1);
        proof {
            assert(post.drop_last() =~= pre);
            assert(post.last() == c);
        }
        let u = c as u32;
        if u < 48 || u > 57 {
            proof {
                assert(body[i - start] == c);
                assert(!is_digit(body[i - start]));
                assert(!all_digits(body));
                assert(parse_i64_spec(s@) is None);
            }
            return None;
        }
        let d = (u - 48) as u64;
        if mag > 1844674407370955160 || (mag == 1844674407370955160 && d > 5) {
            proof {
                assert forall|k: int| 0 <= k < post.len() implies is_digit(#[trigger] post[k]) by {
                    if k < pre.len() {
                        assert(post[k] == pre[k]);
                    }
                }
                if all_digits(body) {
                    assert(body.take(i - start + 1) == post);
                    lemma_digits_value_grows(body, i - start + 1);
                }
            }
            return None;
        }
        mag = mag * 10 + d;
        proof {
            assert forall|k: int| 0 <= k < post.len() implies is_digit(#[trigger] post[k]) by {
                if k < pre.len() {
                    assert(post[k] == pre[k]);
                }
            }
        }
        i = i + 1;
    }
    proof {
        assert(body.take(n - start) =~= body);
    }
    if neg {
        if mag > 9223372036854775808 {
            None
        } else if mag == 9223372036854775808 {
            Some(i64::MIN)
        } else {
            Some(-(mag as i64))
        }
    } else {
        if mag > 9223372036854775807 {
            None
        } else {
            Some(mag as i64)
        }
    }
}

// ---------------------------------------------------------------------------
// RRULE settings
// ---------------------------------------------------------------------------

/// The index of the first `c` in `s`, or -1.
pub open spec fn first_index(s: Seq<char>, c: char) -> int
    decreases s.len(),
{
    if s.len() == 0 {
        -1
    } else if s[0] == c {
        0
    } else {
        let r = first_index(s.drop_first(), c);
        if r < 0 {
            -1
        } else {
            r + 1
        }
    }
}

proof fn lemma_first_index(s: Seq<char>, c: char, k: int)
    requires
        0 <= k <= s.len(),
        forall|j: int| 0 <= j < k ==> s[j] != c,
    ensures
        k < s.len() && s[k] == c ==> first_index(s, c) == k,
        k == s.len() ==> first_index(s, c) == -1,
    decreases k,
{
    if k > 0 {
        assert forall|j: int| 0 <= j < k - 1 implies s.drop_first()[j] != c by {
            assert(s.drop_first()[j] == s[j + 1]);
        }
        lemma_first_index(s.drop_first(), c, k - 1);
        if k < s.len() {
            assert(s.drop_first()[k - 1] == s[k]);
        }
    }
}

pub open spec fn freq_key() -> Seq<char> {
    seq!['F', 'R', 'E', 'Q']
}

pub open spec fn interval_key() -> Seq<char> {
    seq!['I', 'N', 'T', 'E', 'R', 'V', 'A', 'L']
}

/// FREQ and INTERVAL after reading one `key=value` part of a rule.
pub open spec fn apply_rule_part(st: (Seq<char>, int), part: Seq<char>) -> (Seq<char>, int) {
    let k = first_index(part, '=');
    if k < 0 {
        st
    } else {
        let key = part.take(k);
        let val = part.skip(k + 1);
        if key == freq_key() {
            (val, st.1)
        } else if key == interval_key() {
            (
                st.0,
                match parse_i64_spec(val) {
                    Some(v) => v,
                    None => 1,
                },
            )
        } else {
            st
        }
    }
}

pub open spec fn settings_of_parts(parts: Seq<Seq<char>>) -> (Seq<char>, int)
    decreases parts.len(),
{
    if parts.len() == 0 {
        (Seq::<char>::empty(), 1)
    } else {
        apply_rule_part(settings_of_parts(parts.drop_last()), parts.last())
    }
}

/// The FREQ (empty when absent) and INTERVAL (1 when absent or unreadable)
/// of a rule: the last setting of each wins.
pub open spec fn rule_settings(rrule: Seq<char>) -> (Seq<char>, int) {
    settings_of_parts(split_seq(rrule, ';'))
}

/// Reading a rule part by part: `FREQ=v` sets the frequency to `v`,
/// `INTERVAL=n` sets the interval to the integer `n` reads as (1 when it is
/// not one), and a part without `=` changes nothing; the parts are read in
/// order, so a later setting wins; with no parts the frequency is empty and
/// the interval 1.
pub proof fn lemma_rule_parts(st: (Seq<char>, int), parts: Seq<Seq<char>>, part: Seq<char>, v: Seq<char>)
    ensures
        apply_rule_part(st, "FREQ="@ + v) == (v, st.1),
        apply_rule_part(st, "INTERVAL="@ + v) == (st.0, match parse_i64_spec(v) {
            Some(n) => n,
            None => 1,
        }),
        (forall|i: int| 0 <= i < part.len() ==> part[i] != '=') ==> apply_rule_part(st, part)
            == st,
        settings_of_parts(parts.push(part)) == apply_rule_part(settings_of_parts(parts), part),
        settings_of_parts(Seq::<Seq<char>>::empty()) == (Seq::<char>::empty(), 1int),
{
    reveal_strlit("FREQ=");
    reveal_strlit("INTERVAL=");
    let f = "FREQ="@ + v;
    lemma_first_index(f, '=', 4);
    assert(f.take(4) =~= freq_key());
    assert(f.skip(5) =~= v);
    let g = "INTERVAL="@ + v;
    lemma_first_index(g, '=', 8);
    assert(g.take(8) =~= interval_key());
    assert(g.take(8) != freq_key());
    assert(g.skip(9) =~= v);
    if forall|i: int| 0 <= i < part.len() ==> part[i] != '=' {
        lemma_first_index(part, '=', part.len() as int);
    }
    assert(parts.push(part).drop_last() =~= parts);
}

/// Each frequency steps by its own unit: DAILY by `interval` days, WEEKLY
/// by `interval` weeks, MONTHLY by months and YEARLY by years; any other
/// frequency, or an interval below 1, gives no next date.
pub proof fn lemma_frequencies(date: (int, int, int), freq: Seq<char>, interval: int)
    ensures
        interval < 1 ==> advance(date, freq, interval) == Ok::<Option<(int, int, int)>, ()>(None),
        interval >= 1 ==> advance(date, "DAILY"@, interval) == match day_shift(date, interval) {
            Some(d) => Ok::<Option<(int, int, int)>, ()>(Some(d)),
            None => Err(()),
        },
        interval >= 1 ==> advance(date, "WEEKLY"@, interval) == match week_shift(date, interval) {
            Some(d) => Ok::<Option<(int, int, int)>, ()>(Some(d)),
            None => Err(()),
        },
        interval >= 1 ==> advance(date, "MONTHLY"@, interval) == Ok::<Option<(int, int, int)>, ()>(
            monthly_step(date, interval),
        ),
        interval >= 1 ==> advance(date, "YEARLY"@, interval) == Ok::<Option<(int, int, int)>, ()>(
            yearly_step(date, interval),
        ),
        freq != "DAILY"@ && freq != "WEEKLY"@ && freq != "MONTHLY"@ && freq != "YEARLY"@
            ==> advance(date, freq, interval) == Ok::<Option<(int, int, int)>, ()>(None),
{
    reveal_strlit("DAILY");
    reveal_strlit("WEEKLY");
    reveal_strlit("MONTHLY");
    reveal_strlit("YEARLY");
    assert("DAILY"@ =~= daily_key());
    assert("WEEKLY"@ =~= weekly_key());
    assert("MONTHLY"@ =~= monthly_key());
    assert("YEARLY"@ =~= yearly_key());
    assert(weekly_key()[0] != yearly_key()[0]);
}

/// A yearly step moves the year by the interval and keeps the month and the
/// day; the 29th of February has no counterpart in a common year.
pub proof fn lemma_yearly_step(date: (int, int, int), interval: int)
    requires
        valid_ymd(date.0, date.1, date.2),
        interval >= 1,
        date.0 + interval <= max_year(),
    ensures
        !(date.1 == 2 && date.2 == 29 && !is_leap_year(date.0 + interval)) ==> yearly_step(
            date,
            interval,
        ) == Some((date.0 + interval, date.1, date.2)),
        date.1 == 2 && date.2 == 29 && !is_leap_year(date.0 + interval) ==> yearly_step(
            date,
            interval,
        ) is None,
{
}

/// The FREQ and INTERVAL of a rule.
pub fn read_rule(rrule: &str) -> (r: (String, i64))
    ensures
        rule_settings(rrule@) == (r.0@, r.1 as int),
{
    let parts = split_text(rrule, ';');
    let mut freq = String::new();
    let mut interval: i64 = 1;
    let mut i: usize = 0;
    proof {
        reveal_strlit("FREQ");
        reveal_strlit("INTERVAL");
        assert(views(parts@).take(0) =~= Seq::<Seq<char>>::empty());
    }
    while i < parts.len()
        invariant
            i <= parts.len(),
            views(parts@) == split_seq(rrule@, ';'),
            settings_of_parts(views(parts@).take(i as int)) == (freq@, interval as int),
        decreases parts.len() - i,
    {
        proof {
            reveal_strlit("FREQ");
            reveal_strlit("INTERVAL");
            assert("FREQ"@ =~= freq_key());
            assert("INTERVAL"@ =~= interval_key());
            assert(views(parts@).take(i as int + 1).drop_last() =~= views(parts@).take(i as int));
            assert(views(parts@).take(i as int + 1).last() == parts@[i as int]@);
        }
        let part = parts[i].as_str();
        let cs = chars_of(part);
        let mut k: usize = 0;
        while k < cs.len() && cs[k] != '='
            invariant
                k <= cs.len(),
                cs@ == part@,
                forall|j: int| 0 <= j < k ==> cs@[j] != '=',
            decreases cs.len() - k,
        {
            k = k + 1;
        }
        proof {
            lemma_first_index(part@, '=', k as int);
        }
        if k < cs.len() {
            let key = owned(part.substring_char(0, k));
            let val = part.substring_char(k + 1, cs.len());
            proof {
                assert(part@.take(k as int) =~= part@.subrange(0, k as int));
                assert(part@.skip(k as int + 1) =~= part@.subrange(k as int + 1, cs.len() as int));
            }
            if text_is(&key, "FREQ") {
                freq = owned(val);
            } else if text_is(&key, "INTERVAL") {
                interval = match parse_i64(val) {
                    Some(v) => v,
                    None => 1,
                };
            }
        }
        i = i + 1;
    }
    proof {
        assert(views(parts@).take(parts.len() as int) =~= views(parts@));
    }
    (freq, interval)
}

// ---------------------------------------------------------------------------
// Stepping a date
// ---------------------------------------------------------------------------

/// The next month of `(year, month)` overflows its integer type here.
pub open spec fn days_in_month_overflows(year: int, month: int) -> bool {
    (month == 12 && year == i32::MAX) || month == u32::MAX
}

/// The day of month of the day before the first of the following month, or
/// 28 where chrono holds no such days.
pub open spec fn days_in_month_spec(year: int, month: int) -> int {
    let next = if month == 12 {
        last_day_before(year + 1, 1)
    } else {
        last_day_before(year, month + 1)
    };
    match next {
        Some(v) => v,
        None => 28,
    }
}

/// The number of days of a month, through chrono: the day before the first of
/// the next month; 28 where chrono holds no such day.
pub fn days_in_month(year: i32, month: u32) -> (r: u32)
    requires
        !days_in_month_overflows(year as int, month as int),
    ensures
        r as int == days_in_month_spec(year as int, month as int),
{
    let next = if month == 12 {
        day_before_first_of(year + 1, 1)
    } else {
        day_before_first_of(year, month + 1)
    };
    match next {
        Some(v) => v,
        None => 28,
    }
}

pub open spec fn daily_key() -> Seq<char> {
    seq!['D', 'A', 'I', 'L', 'Y']
}

pub open spec fn weekly_key() -> Seq<char> {
    seq!['W', 'E', 'E', 'K', 'L', 'Y']
}

pub open spec fn monthly_key() -> Seq<char> {
    seq!['M', 'O', 'N', 'T', 'H', 'L', 'Y']
}

pub open spec fn yearly_key() -> Seq<char> {
    seq!['Y', 'E', 'A', 'R', 'L', 'Y']
}

/// A monthly step of `interval` months: the month `interval` months after
/// that of `date`, with the day of the month clamped to that month's last day
/// (as `days_in_month` gives it); `None` where the year leaves chrono's range
/// or the day does not exist.
pub open spec fn monthly_step(date: (int, int, int), interval: int) -> Option<(int, int, int)> {
    let x = date.1 - 1 + interval;
    let year = date.0 + x / 12;
    let month = x % 12 + 1;
    if year < min_year() || year > max_year() {
        None
    } else {
        let dim = days_in_month_spec(year, month);
        let day = if date.2 <= dim {
            date.2
        } else {
            dim
        };
        if valid_ymd(year, month, day) {
            Some((year, month, day))
        } else {
            None
        }
    }
}

/// A yearly step of `interval` years, keeping month and day; `None` where
/// that day does not exist (the 29th of February of a common year, or a year
/// out of chrono's range).
pub open spec fn yearly_step(date: (int, int, int), interval: int) -> Option<(int, int, int)> {
    let year = date.0 + interval;
    if valid_ymd(year, date.1, date.2) {
        Some((year, date.1, date.2))
    } else {
        None
    }
}

/// The date one step of the rule after `date`: `Err` where a daily or weekly
/// step overflows chrono's arithmetic, `Ok(None)` where the rule gives no
/// later date (an INTERVAL below 1, an unknown FREQ, or a day that does not
/// exist).
pub open spec fn advance(date: (int, int, int), freq: Seq<char>, interval: int) -> Result<
    Option<(int, int, int)>,
    (),
> {
    if interval < 1 {
        Ok(None)
    } else if freq == daily_key() {
        match day_shift(date, interval) {
            Some(d) => Ok(Some(d)),
            None => Err(()),
        }
    } else if freq == weekly_key() {
        match week_shift(date, interval) {
            Some(d) => Ok(Some(d)),
            None => Err(()),
        }
    } else if freq == monthly_key() {
        Ok(monthly_step(date, interval))
    } else if freq == yearly_key() {
        Ok(yearly_step(date, interval))
    } else {
        Ok(None)
    }
}

/// The next occurrence of `rrule` after `current`, as text: `Err` where the
/// step cannot be taken, `Ok(None)` where there is no next date.
pub open spec fn occurrence_after(current: Seq<char>, rrule: Seq<char>) -> Result<
    Option<Seq<char>>,
    (),
> {
    match ymd_parse(current) {
        None => Ok(None),
        Some(date) => {
            let st = rule_settings(rrule);
            match advance(date, st.0, st.1) {
                Err(()) => Err(()),
                Ok(None) => Ok(None),
                Ok(Some(d)) => Ok(Some(ymd_text(d.0, d.1, d.2))),
            }
        },
    }
}

/// `s` is the text of a date later than the date that `current` reads as.
pub open spec fn is_later_date_text(s: Seq<char>, current: Seq<char>) -> bool {
    exists|d: (int, int, int)|
        s == ymd_text(d.0, d.1, d.2) && #[trigger] date_before(ymd_parse(current)->0, d)
}

/// A monthly or yearly step of at least one lands on a later date than the
/// one it starts from.
pub proof fn lemma_calendar_steps_move_forward(date: (int, int, int), interval: int)
    requires
        valid_ymd(date.0, date.1, date.2),
        interval >= 1,
    ensures
        monthly_step(date, interval) matches Some(d) ==> date_before(date, d),
        yearly_step(date, interval) matches Some(d) ==> date_before(date, d),
{
    let x = date.1 - 1 + interval;
    assert(x >= date.1);
    let q = x / 12;
    let rm = x % 12;
    assert(x == 12 * q + rm);
    assert(0 <= rm < 12);
    if q == 0 {
        assert(rm == x);
    } else {
        assert(q >= 1);
    }
}

/// Where chrono holds the following month too, `days_in_month` is the
/// length of the month.
pub proof fn lemma_days_in_month_is_month_length(year: int, month: int)
    requires
        min_year() <= year <= max_year(),
        1 <= month <= 12,
        !(year == max_year() && month == 12),
    ensures
        days_in_month_spec(year, month) == month_length(year, month),
{
}

/// A monthly step of `interval` months moves that many months forward and
/// keeps the day of the month, clamped to the last day of the month it lands
/// in (within chrono's range, short of its last month).
pub proof fn lemma_monthly_step_clamps(date: (int, int, int), interval: int)
    requires
        valid_ymd(date.0, date.1, date.2),
        interval >= 1,
        min_year() <= date.0 + (date.1 - 1 + interval) / 12 <= max_year(),
        !(date.0 + (date.1 - 1 + interval) / 12 == max_year() && (date.1 - 1 + interval) % 12
            == 11),
    ensures
        ({
            let x = date.1 - 1 + interval;
            let y = date.0 + x / 12;
            let m = x % 12 + 1;
            let len = month_length(y, m);
            monthly_step(date, interval) == Some(
                (
                    y,
                    m,
                    if date.2 <= len {
                        date.2
                    } else {
                        len
                    },
                ),
            )
        }),
{
    let x = date.1 - 1 + interval;
    lemma_days_in_month_is_month_length(date.0 + x / 12, x % 12 + 1);
}

/// Why a step could not be taken: the arithmetic of the rule overflows.
#[derive(Clone, Copy, Debug, PartialEq, Eq)]
pub struct StepOverflow;

/// One step of the rule from a valid date: `Err` where the step overflows;
/// a date handed back is always later than `date`.
pub fn advance_date(date: CalendarDate, freq: &String, interval: i64) -> (r: Result<
    Option<CalendarDate>,
    StepOverflow,
>)
    requires
        valid_date(date),
    ensures
        match r {
            Ok(Some(d)) => advance(date.ymd(), freq@, interval as int) == Ok::<
                Option<(int, int, int)>,
                (),
            >(Some(d.ymd())),
            Ok(None) => advance(date.ymd(), freq@, interval as int) == Ok::<
                Option<(int, int, int)>,
                (),
            >(None),
            Err(_) => advance(date.ymd(), freq@, interval as int) is Err,
        },
        r matches Ok(Some(d)) ==> date_before(date.ymd(), d.ymd()),
{
    proof {
        reveal_strlit("DAILY");
        reveal_strlit("WEEKLY");
        reveal_strlit("MONTHLY");
        reveal_strlit("YEARLY");
        assert("DAILY"@ =~= daily_key());
        assert("WEEKLY"@ =~= weekly_key());
        assert("MONTHLY"@ =~= monthly_key());
        assert("YEARLY"@ =~= yearly_key());
    }
    if interval < 1 {
        return Ok(None);
    }
    proof {
        lemma_calendar_steps_move_forward(date.ymd(), interval as int);
    }
    if text_is(freq, "DAILY") {
        match shift_days(date, interval) {
            Some(d) => Ok(Some(d)),
            None => Err(StepOverflow),
        }
    } else if text_is(freq, "WEEKLY") {
        match shift_weeks(date, interval) {
            Some(d) => Ok(Some(d)),
            None => Err(StepOverflow),
        }
    } else if text_is(freq, "MONTHLY") {
        let x: u64 = (date.month - 1) as u64 + interval as u64;
        let q: u64 = x / 12;
        let rem: u64 = x % 12;
        let year_wide: i128 = date.year as i128 + q as i128;
        if year_wide < -262143 || year_wide > 262142 {
            return Ok(None);
        }
        let year = year_wide as i32;
        let month = (rem + 1) as u32;
        let dim = days_in_month(year, month);
        let day = if date.day <= dim {
            date.day
        } else {
            dim
        };
        Ok(make_date(year, month, day))
    } else if text_is(freq, "YEARLY") {
        let year_wide: i128 = date.year as i128 + interval as i128;
        if year_wide < -262143 || year_wide > 262142 {
            return Ok(None);
        }
        Ok(make_date(year_wide as i32, date.month, date.day))
    } else {
        Ok(None)
    }
}

/// Whether `next_occurrence` can be called on these arguments: the step of the
/// rule does not overflow.
pub fn occurrence_step_fits(current: &str, rrule: &str) -> (b: bool)
    ensures
        b == (occurrence_after(current@, rrule@) is Ok),
{
    match parse_ymd(current) {
        None => true,
        Some(date) => {
            let (freq, interval) = read_rule(rrule);
            advance_date(date, &freq, interval).is_ok()
        },
    }
}

/// Parse a minimal RRULE and return the next date after `current`, formatted
/// as `%Y-%m-%d`. Supported: FREQ=DAILY|WEEKLY|MONTHLY|YEARLY with optional
/// INTERVAL=N. `None` when `current` is not a date, the FREQ is unknown, the
/// INTERVAL is below 1, or the stepped day does not exist.
pub fn next_occurrence(current: &str, rrule: &str) -> (r: Option<String>)
    requires
        occurrence_after(current@, rrule@) is Ok,
    ensures
        occurrence_after(current@, rrule@) == Ok::<Option<Seq<char>>, ()>(opt_view(r)),
        r matches Some(s) ==> is_later_date_text(s@, current@),
{
    let date = match parse_ymd(current) {
        Some(d) => d,
        None => return None,
    };
    let (freq, interval) = read_rule(rrule);
    match advance_date(date, &freq, interval) {
        Ok(Some(d)) => {
            let s = format_ymd(d);
            proof {
                assert(date_before(ymd_parse(current@)->0, d.ymd()));
            }
            Some(s)
        },
        Ok(None) => None,
        Err(_) => {
            proof {
                assert(false);
            }
            None
        },
    }
}

/// The next occurrence, or `Err` where the arithmetic of the rule overflows.
pub fn checked_next_occurrence(current: &str, rrule: &str) -> (r: Result<
    Option<String>,
    StepOverflow,
>)
    ensures
        match r {
            Ok(v) => occurrence_after(current@, rrule@) == Ok::<Option<Seq<char>>, ()>(
                opt_view(v),
            ),
            Err(_) => occurrence_after(current@, rrule@) is Err,
        },
        r matches Ok(Some(s)) ==> is_later_date_text(s@, current@),
{
    if occurrence_step_fits(current, rrule) {
        Ok(next_occurrence(current, rrule))
    } else {
        Err(StepOverflow)
    }
}

// ---------------------------------------------------------------------------
// Spawning occurrences
// ---------------------------------------------------------------------------

/// A new occurrence of a recurring entry, to be created on `entry_date`.
#[derive(Debug)]
pub struct SpawnPlan {
    pub budget_id: String,
    pub category_id: Option<String>,
    pub kind: EntryKind,
    pub amount: i64,
    pub description: String,
    pub entry_date: String,
    pub tags: Vec<String>,
    pub notes: Option<String>,
    pub created_by: String,
    /// The rule of the template, to step its next occurrence with.
    pub rule: String,
}

/// The occurrence of a due template on `today`: the template's fields with
/// today's date; `None` when the template has no rule.
pub fn plan_spawn(template: &DbEntry, today: &str) -> (r: Option<SpawnPlan>)
    ensures
        r is Some == template.recurrence_rule is Some,
        r matches Some(p) ==> {
            &&& p.budget_id == template.budget_id
            &&& p.category_id == template.category_id
            &&& p.kind == kind_of_db_text(template.kind@)
            &&& p.amount == template.amount_minor
            &&& p.description == template.description
            &&& p.entry_date@ == today@
            &&& views(p.tags@) == parse_tags(text_or_empty(template.tags))
            &&& p.notes == template.notes
            &&& p.created_by == template.created_by
            &&& p.rule == template.recurrence_rule->0
        },
{
    let rule = match &template.recurrence_rule {
        Some(r) => r.clone(),
        None => return None,
    };
    let kind = kind_from_db(template.kind.as_str());
    let tags = match &template.tags {
        Some(t) => split_tags(t.as_str()),
        None => split_tags(""),
    };
    proof {
        reveal_strlit("");
    }
    Some(
        SpawnPlan {
            budget_id: template.budget_id.clone(),
            category_id: template.category_id.clone(),
            kind,
            amount: template.amount_minor,
            description: template.description.clone(),
            entry_date: owned(today),
            tags,
            notes: template.notes.clone(),
            created_by: template.created_by.clone(),
            rule,
        },
    )
}

/// What follows a spawned occurrence.
#[derive(Debug)]
pub enum FollowUp {
    /// Move the template's next occurrence to this date.
    Advance(String),
    /// The rule gives no next date: stop the recurrence.
    CancelRecurrence,
    /// The rule's arithmetic overflows: no step can be taken.
    Overflow,
}

/// After an occurrence was spawned on `today`: advance the template to the
/// rule's next date, or stop the recurrence when there is none.
pub fn follow_up(today: &str, rule: &str) -> (r: FollowUp)
    ensures
        match r {
            FollowUp::Advance(next) => occurrence_after(today@, rule@) == Ok::<
                Option<Seq<char>>,
                (),
            >(Some(next@)),
            FollowUp::CancelRecurrence => occurrence_after(today@, rule@) == Ok::<
                Option<Seq<char>>,
                (),
            >(None),
            FollowUp::Overflow => occurrence_after(today@, rule@) is Err,
        },
        r matches FollowUp::Advance(next) ==> is_later_date_text(next@, today@),
{
    match checked_next_occurrence(today, rule) {
        Ok(Some(next)) => FollowUp::Advance(next),
        Ok(None) => FollowUp::CancelRecurrence,
        Err(_) => FollowUp::Overflow,
    }
}

} // verus!
