//! Request checks: required text, positive amounts, date ranges and id lists.
use vstd::prelude::*;
use vstd::utf8::encode_utf8;

use crate::dates::{date_before, day_span, days_between, parse_ymd, ymd_parse, CalendarDate};
use crate::error::{outcome, Code, ServiceError};
use crate::text::{chars_of, decimal, is_blank, owned, trim, u64_text, views};

verus! {

/// `{field} must not be empty`
pub open spec fn empty_field_msg(field: Seq<char>) -> Seq<char> {
    field + " must not be empty"@
}

/// Fails for a value that is empty or holds only whitespace.
pub fn non_empty(field: &str, value: &str) -> (r: Result<(), ServiceError>)
    ensures
        outcome(r) == (if trim(value@).len() == 0 {
            Err((Code::InvalidArgument, empty_field_msg(field@)))
        } else {
            Ok(())
        }),
{
    if is_blank(value) {
        let mut m = owned(field);
        m.append(" must not be empty");
        return Err(ServiceError::new(Code::InvalidArgument, m));
    }
    Ok(())
}

/// Fails for an amount that is zero or negative.
pub fn positive_amount(amount: i64) -> (r: Result<(), ServiceError>)
    ensures
        outcome(r) == (if amount <= 0 {
            Err((Code::InvalidArgument, "amount must be positive"@))
        } else {
            Ok(())
        }),
{
    if amount <= 0 {
        return Err(ServiceError::with_text(Code::InvalidArgument, "amount must be positive"));
    }
    Ok(())
}

pub open spec fn bad_from_msg() -> Seq<char> {
    "date_from must be YYYY-MM-DD"@
}

pub open spec fn bad_to_msg() -> Seq<char> {
    "date_to must be YYYY-MM-DD"@
}

pub open spec fn order_msg() -> Seq<char> {
    "date_from must not be after date_to"@
}

/// `date range must not exceed {max_days} days`
pub open spec fn span_msg(max_days: nat) -> Seq<char> {
    "date range must not exceed "@ + decimal(max_days) + " days"@
}

/// The verdict on two read dates: refused when both are given and the first
/// comes after the second.
pub open spec fn date_order_outcome(from: Option<(int, int, int)>, to: Option<(int, int, int)>) -> Result<
    (),
    (Code, Seq<char>),
> {
    match (from, to) {
        (Some(f), Some(t)) => if date_before(t, f) {
            Err((Code::InvalidArgument, order_msg()))
        } else {
            Ok(())
        },
        _ => Ok(()),
    }
}

pub open spec fn opt_ymd(d: Option<CalendarDate>) -> Option<(int, int, int)> {
    match d {
        Some(x) => Some(x.ymd()),
        None => None,
    }
}

/// Refuses a range whose start comes after its end.
pub fn date_order_check(from: Option<CalendarDate>, to: Option<CalendarDate>) -> (r: Result<
    (),
    ServiceError,
>)
    ensures
        outcome(r) == date_order_outcome(opt_ymd(from), opt_ymd(to)),
        from is Some && to is Some ==> ({
            let f = from->0;
            let t = to->0;
            r is Ok <==> (f.year < t.year || (f.year == t.year && f.month < t.month) || (f.year
                == t.year && f.month == t.month && f.day <= t.day))
        }),
        from is None || to is None ==> r is Ok,
{
    match (from, to) {
        (Some(f), Some(t)) => {
            let before = t.year < f.year || (t.year == f.year && t.month < f.month) || (t.year
                == f.year && t.month == f.month && t.day < f.day);
            if before {
                Err(ServiceError::with_text(Code::InvalidArgument, "date_from must not be after date_to"))
            } else {
                Ok(())
            }
        },
        _ => Ok(()),
    }
}

/// The verdict on a date range given as text: each bound may be empty, a
/// given bound must read as `%Y-%m-%d`, and the start must not come after
/// the end.
pub open spec fn date_range_outcome(from: Seq<char>, to: Seq<char>) -> Result<
    (),
    (Code, Seq<char>),
> {
    if from.len() == 0 && to.len() == 0 {
        Ok(())
    } else if from.len() > 0 && ymd_parse(from) is None {
        Err((Code::InvalidArgument, bad_from_msg()))
    } else if to.len() > 0 && ymd_parse(to) is None {
        Err((Code::InvalidArgument, bad_to_msg()))
    } else {
        date_order_outcome(
            if from.len() == 0 {
                None
            } else {
                ymd_parse(from)
            },
            if to.len() == 0 {
                None
            } else {
                ymd_parse(to)
            },
        )
    }
}

/// Two dates are in order exactly when they are in calendar order: an
/// earlier year passes whatever the months and days, within one year an
/// earlier month passes whatever the days, and within one month the start
/// may not come after the end; a refusal carries the order message. A range
/// with a bound missing is never refused for its order.
pub proof fn lemma_date_order_is_calendar_order(f: (int, int, int), t: (int, int, int))
    ensures
        (date_order_outcome(Some(f), Some(t)) is Ok) <==> (f.0 < t.0 || (f.0 == t.0 && f.1 < t.1)
            || (f.0 == t.0 && f.1 == t.1 && f.2 <= t.2)),
        date_order_outcome(Some(f), Some(t)) is Err ==> date_order_outcome(Some(f), Some(t))
            == Err::<(), (Code, Seq<char>)>((Code::InvalidArgument, order_msg())),
        date_order_outcome(Some(f), Some(f)) is Ok,
        date_order_outcome(None, Some(t)) is Ok,
        date_order_outcome(Some(f), None) is Ok,
{
}

/// For two bounds that read as dates, a date range is refused exactly when
/// the start comes after the end in calendar order (year, then month, then
/// day), and then with the order message.
pub proof fn lemma_date_range_order(from: Seq<char>, to: Seq<char>)
    requires
        from.len() > 0,
        to.len() > 0,
        ymd_parse(from) is Some,
        ymd_parse(to) is Some,
    ensures
        ({
            let f = ymd_parse(from)->0;
            let t = ymd_parse(to)->0;
            &&& (date_range_outcome(from, to) is Ok) <==> (f.0 < t.0 || (f.0 == t.0 && f.1 < t.1)
                || (f.0 == t.0 && f.1 == t.1 && f.2 <= t.2))
            &&& date_range_outcome(from, to) is Err ==> date_range_outcome(from, to) == Err::<
                (),
                (Code, Seq<char>),
            >((Code::InvalidArgument, order_msg()))
        }),
{
}

/// Checks an optional date range given as `%Y-%m-%d` texts.
pub fn date_range(date_from: &str, date_to: &str) -> (r: Result<(), ServiceError>)
    ensures
        outcome(r) == date_range_outcome(date_from@, date_to@),
{
    if date_from.is_empty() && date_to.is_empty() {
        return Ok(());
    }
    let from = if date_from.is_empty() {
        None
    } else {
        match parse_ymd(date_from) {
            Some(d) => Some(d),
            None => {
                return Err(ServiceError::with_text(Code::InvalidArgument, "date_from must be YYYY-MM-DD"));
            },
        }
    };
    let to = if date_to.is_empty() {
        None
    } else {
        match parse_ymd(date_to) {
            Some(d) => Some(d),
            None => {
                return Err(ServiceError::with_text(Code::InvalidArgument, "date_to must be YYYY-MM-DD"));
            },
        }
    };
    date_order_check(from, to)
}

/// The verdict on a span of `days` days: refused when negative or, read as
/// a `u32`, longer than `max_days`.
pub open spec fn span_outcome(days: int, max_days: int) -> Result<(), (Code, Seq<char>)> {
    if days < 0 {
        Err((Code::InvalidArgument, order_msg()))
    } else if (days as u32) as int > max_days {
        Err((Code::InvalidArgument, span_msg(max_days as nat)))
    } else {
        Ok(())
    }
}

/// A span that fits a `u32` passes exactly when it is not negative and not
/// longer than `max_days`: a range of exactly `max_days` days passes.
pub proof fn lemma_span_limit(days: int, max_days: int)
    requires
        days <= u32::MAX,
    ensures
        (span_outcome(days, max_days) is Ok) == (0 <= days <= max_days),
{
    if days >= 0 {
        assert((days as u32) as int == days);
    }
}

/// Refuses a negative span, or one longer than `max_days`.
pub fn span_check(days: i64, max_days: u32) -> (r: Result<(), ServiceError>)
    ensures
        outcome(r) == span_outcome(days as int, max_days as int),
{
    if days < 0 {
        return Err(ServiceError::with_text(Code::InvalidArgument, "date_from must not be after date_to"));
    }
    if days as u32 > max_days {
        let mut m = owned("date range must not exceed ");
        m.append(u64_text(max_days as u64).as_str());
        m.append(" days");
        return Err(ServiceError::new(Code::InvalidArgument, m));
    }
    Ok(())
}

/// The verdict on a range that may span at most `max_days` days: no check
/// when a bound is empty; both bounds must read as dates.
pub open spec fn range_max_days_outcome(from: Seq<char>, to: Seq<char>, max_days: int) -> Result<
    (),
    (Code, Seq<char>),
> {
    if from.len() == 0 || to.len() == 0 {
        Ok(())
    } else {
        match ymd_parse(from) {
            None => Err((Code::InvalidArgument, bad_from_msg())),
            Some(f) => match ymd_parse(to) {
                None => Err((Code::InvalidArgument, bad_to_msg())),
                Some(t) => span_outcome(day_span(t, f), max_days),
            },
        }
    }
}

/// Checks that a date range spans at most `max_days` days. Where both
/// bounds read as dates, their span is smaller in size than 2^28 days, and
/// the range passes exactly when the span is neither negative nor longer than
/// `max_days`.
pub fn range_max_days(date_from: &str, date_to: &str, max_days: u32) -> (r: Result<
    (),
    ServiceError,
>)
    ensures
        outcome(r) == range_max_days_outcome(date_from@, date_to@, max_days as int),
        date_from@.len() > 0 && date_to@.len() > 0 && ymd_parse(date_from@) is Some && ymd_parse(
            date_to@,
        ) is Some ==> ({
            let span = day_span(ymd_parse(date_to@)->0, ymd_parse(date_from@)->0);
            &&& -0x1000_0000 < span < 0x1000_0000
            &&& (r is Ok <==> 0 <= span <= max_days)
        }),
{
    if date_from.is_empty() || date_to.is_empty() {
        return Ok(());
    }
    let from = match parse_ymd(date_from) {
        Some(d) => d,
        None => {
            return Err(ServiceError::with_text(Code::InvalidArgument, "date_from must be YYYY-MM-DD"));
        },
    };
    let to = match parse_ymd(date_to) {
        Some(d) => d,
        None => {
            return Err(ServiceError::with_text(Code::InvalidArgument, "date_to must be YYYY-MM-DD"));
        },
    };
    let days = days_between(to, from);
    proof {
        lemma_span_limit(days as int, max_days as int);
    }
    span_check(days, max_days)
}

// ---------------------------------------------------------------------------
// Id lists
// ---------------------------------------------------------------------------

/// An ASCII hexadecimal digit.
pub open spec fn is_hex_digit(c: char) -> bool {
    let u = c as u32;
    (48 <= u <= 57) || (65 <= u <= 70) || (97 <= u <= 102)
}

/// A text shaped like a UUID: 36 bytes long (its byte length read as a
/// `usize`), of hexadecimal digits and
/// dashes only.
pub open spec fn uuid_like(s: Seq<char>) -> bool {
    &&& encode_utf8(s).len() as usize == 36
    &&& forall|i: int| 0 <= i < s.len() ==> is_hex_digit(s[i]) || s[i] == '-'
}

/// The index of the first id that is not shaped like a UUID, or -1.
pub open spec fn first_bad_id(ids: Seq<Seq<char>>) -> int
    decreases ids.len(),
{
    if ids.len() == 0 {
        -1
    } else if !uuid_like(ids[0]) {
        0
    } else {
        let r = first_bad_id(ids.drop_first());
        if r < 0 {
            -1
        } else {
            r + 1
        }
    }
}

proof fn lemma_first_bad_id(ids: Seq<Seq<char>>, k: int)
    requires
        0 <= k <= ids.len(),
        forall|j: int| 0 <= j < k ==> uuid_like(#[trigger] ids[j]),
    ensures
        k < ids.len() && !uuid_like(ids[k]) ==> first_bad_id(ids) == k,
        k == ids.len() ==> first_bad_id(ids) == -1,
    decreases k,
{
    if k > 0 {
        assert forall|j: int| 0 <= j < k - 1 implies uuid_like(#[trigger] ids.drop_first()[j]) by {
            assert(ids.drop_first()[j] == ids[j + 1]);
        }
        assert(uuid_like(ids[0]));
        lemma_first_bad_id(ids.drop_first(), k - 1);
        if k < ids.len() {
            assert(ids.drop_first()[k - 1] == ids[k]);
        }
    }
}

/// `{field} must not have more than {max} entries`
pub open spec fn too_many_msg(field: Seq<char>, max: nat) -> Seq<char> {
    field + " must not have more than "@ + decimal(max) + " entries"@
}

/// `{field} contains invalid UUID: {id}`
pub open spec fn bad_id_msg(field: Seq<char>, id: Seq<char>) -> Seq<char> {
    field + " contains invalid UUID: "@ + id
}

/// The verdict on a list of ids: at most `max` of them, each shaped like a
/// UUID; the first offending id is named.
pub open spec fn repeated_ids_outcome(ids: Seq<Seq<char>>, field: Seq<char>, max: nat) -> Result<
    (),
    (Code, Seq<char>),
> {
    if ids.len() > max {
        Err((Code::InvalidArgument, too_many_msg(field, max)))
    } else if first_bad_id(ids) >= 0 {
        Err((Code::InvalidArgument, bad_id_msg(field, ids[first_bad_id(ids)])))
    } else {
        Ok(())
    }
}

/// The hexadecimal digits are `0` to `9`, `a` to `f` and `A` to `F`.
pub proof fn lemma_hex_digits(c: char)
    ensures
        is_hex_digit(c) <==> (('0' <= c && c <= '9') || ('a' <= c && c <= 'f') || ('A' <= c
            && c <= 'F')),
{
}

/// A list of ids with more than `max` entries is refused for its length; a
/// list within the limit whose ids are all shaped like UUIDs passes; else
/// the first id that is not shaped like a UUID is named in the refusal.
pub proof fn lemma_id_list_verdict(ids: Seq<Seq<char>>, field: Seq<char>, max: nat, k: int)
    requires
        0 <= k <= ids.len(),
        forall|j: int| 0 <= j < k ==> uuid_like(#[trigger] ids[j]),
    ensures
        ids.len() > max ==> repeated_ids_outcome(ids, field, max) == Err::<(), (Code, Seq<char>)>(
            (Code::InvalidArgument, too_many_msg(field, max)),
        ),
        ids.len() <= max && k == ids.len() ==> repeated_ids_outcome(ids, field, max) is Ok,
        ids.len() <= max && k < ids.len() && !uuid_like(ids[k]) ==> repeated_ids_outcome(
            ids,
            field,
            max,
        ) == Err::<(), (Code, Seq<char>)>((Code::InvalidArgument, bad_id_msg(field, ids[k]))),
{
    lemma_first_bad_id(ids, k);
}

fn is_uuid_like(id: &str) -> (b: bool)
    ensures
        b == uuid_like(id@),
{
    if id.len() != 36 {
        return false;
    }
    let cs = chars_of(id);
    let mut i: usize = 0;
    while i < cs.len()
        invariant
            i <= cs.len(),
            cs@ == id@,
            forall|k: int| 0 <= k < i ==> is_hex_digit(cs@[k]) || cs@[k] == '-',
        decreases cs.len() - i,
    {
        let c = cs[i];
        let u = c as u32;
        let hex = (48 <= u && u <= 57) || (65 <= u && u <= 70) || (97 <= u && u <= 102);
        if !(hex || c == '-') {
            return false;
        }
        i = i + 1;
    }
    assert(forall|i: int| 0 <= i < id@.len() ==> is_hex_digit(id@[i]) || id@[i] == '-');
    true
}

/// Checks a list of ids: at most `max` of them, each shaped like a UUID.
pub fn repeated_ids(ids: &[String], field: &str, max: usize) -> (r: Result<(), ServiceError>)
    ensures
        outcome(r) == repeated_ids_outcome(views(ids@), field@, max as nat),
{
    if ids.len() > max {
        let mut m = owned(field);
        m.append(" must not have more than ");
        m.append(u64_text(max as u64).as_str());
        m.append(" entries");
        return Err(ServiceError::new(Code::InvalidArgument, m));
    }
    let mut i: usize = 0;
    while i < ids.len()
        invariant
            i <= ids.len(),
            ids@.len() <= max,
            forall|j: int| 0 <= j < i ==> uuid_like(#[trigger] views(ids@)[j]),
        decreases ids.len() - i,
    {
        proof {
            assert(views(ids@)[i as int] == ids@[i as int]@);
        }
        if !is_uuid_like(ids[i].as_str()) {
            proof {
                assert(views(ids@)[i as int] == ids@[i as int]@);
                lemma_first_bad_id(views(ids@), i as int);
            }
            let mut m = owned(field);
            m.append(" contains invalid UUID: ");
            m.append(ids[i].as_str());
            assert(first_bad_id(views(ids@)) == i);
            assert(m@ == bad_id_msg(field@, views(ids@)[i as int]));
            return Err(ServiceError::new(Code::InvalidArgument, m));
        }
        i = i + 1;
    }
    proof {
        lemma_first_bad_id(views(ids@), ids@.len() as int);
    }
    Ok(())
}

} // verus!
