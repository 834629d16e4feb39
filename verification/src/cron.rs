//! Cron expressions: their grammar, the times they match, and the search
//! for the next matching time.
//!
//! An expression has five fields (minute, hour, day of month, month, day of
//! week) or six (with the second in front), separated by white space. A
//! field is a comma-separated list of items. An item is `*`, a number `a`,
//! or a range `a-b`, each optionally followed by `/n` for every `n`-th
//! value; `a/n` runs from `a` to the end of the field's range. Days of the
//! week run from 0 for Sunday to 6 for Saturday, and 7 is Sunday too. A time
//! matches when each of its parts is listed by the field for that part.

use vstd::prelude::*;
use vstd::arithmetic::div_mod::lemma_small_mod;
use crate::calendar::{
    lemma_date_order, lemma_successor, lemma_successor_weekday, second_of_day, valid_time_of_day,
    CivilDate, CivilTime,
};
use crate::error::ScheduleError;
use crate::text::{
    capped, chars_of, lemma_split_nonempty, number, parse_number, pieces, split, split_span,
    Delimiter, Span, NUMBER_CAP,
};

verus! {

/// Every `step`-th value from `first` to `last`.
pub struct Range {
    pub first: int,
    pub last: int,
    pub step: int,
}

impl Range {
    /// Whether the range lists `v`.
    pub open spec fn contains(self, v: int) -> bool {
        self.first <= v <= self.last && (v - self.first) % self.step == 0
    }

    /// Whether the range lies within `lo..=hi` and is not empty.
    pub open spec fn fits(self, lo: int, hi: int) -> bool {
        lo <= self.first <= self.last <= hi && self.step >= 1
    }
}

/// The ends of the part of an item in front of its step: `*` is the whole
/// range of the field, `a-b` runs from `a` to `b`, and `a` alone is that one
/// value, or runs to the end of the field's range when a step follows.
pub open spec fn item_ends(base: Seq<char>, lo: int, hi: int, stepped: bool) -> Option<(int, int)> {
    if base == seq!['*'] {
        Some((lo, hi))
    } else {
        let ends = split(base, Delimiter::Dash);
        if ends.len() == 1 {
            match number(ends[0]) {
                Some(a) => Some(
                    (
                        a,
                        if stepped {
                            hi
                        } else {
                            a
                        },
                    ),
                ),
                None => None,
            }
        } else if ends.len() == 2 {
            match (number(ends[0]), number(ends[1])) {
                (Some(a), Some(b)) => Some((a, b)),
                _ => None,
            }
        } else {
            None
        }
    }
}

/// The range that an item stands for in a field with the values `lo..=hi`.
pub open spec fn item_range(item: Seq<char>, lo: int, hi: int) -> Option<Range> {
    let parts = split(item, Delimiter::Slash);
    if parts.len() > 2 {
        None
    } else {
        let stepped = parts.len() == 2;
        let step = if stepped {
            number(parts[1])
        } else {
            Some(1int)
        };
        match (item_ends(parts[0], lo, hi, stepped), step) {
            (Some((first, last)), Some(step)) => {
                let range = Range { first, last, step };
                if range.fits(lo, hi) {
                    Some(range)
                } else {
                    None
                }
            },
            _ => None,
        }
    }
}

/// The ranges of the items of a field.
pub open spec fn field_ranges(field: Seq<char>, lo: int, hi: int) -> Seq<Option<Range>> {
    split(field, Delimiter::Comma).map_values(|item: Seq<char>| item_range(item, lo, hi))
}

/// Whether range `i` of `ranges` lists `v`.
pub open spec fn listed_by(ranges: Seq<Option<Range>>, i: int, v: int) -> bool {
    0 <= i < ranges.len() && ranges[i] is Some && ranges[i]->0.contains(v)
}

/// The values that a field lists, when each of its items is well formed.
pub open spec fn field_values(field: Seq<char>, lo: int, hi: int) -> Option<Set<int>> {
    let ranges = field_ranges(field, lo, hi);
    if forall|i: int| 0 <= i < ranges.len() ==> (#[trigger] ranges[i]) is Some {
        Some(Set::new(|v: int| exists|i: int| listed_by(ranges, i, v)))
    } else {
        None
    }
}

/// The values whose flag is set in `mask`.
pub open spec fn set_of(mask: Seq<bool>) -> Set<int> {
    Set::new(|v: int| 0 <= v < mask.len() && mask[v])
}

/// The largest value that any field admits.
const FIELD_MAX: usize = 59;

/// A range as the parser holds it: `first`, `last`, and the step, capped.
struct Stride {
    first: usize,
    last: usize,
    step: usize,
}

impl Stride {
    /// Whether the stride stands for `range`.
    spec fn stands_for(self, range: Range) -> bool {
        &&& self.first == range.first
        &&& self.last == range.last
        &&& self.step == capped(range.step)
    }
}

/// Within a field's range, a capped step picks the same values as the step
/// itself.
proof fn lemma_capped_step(range: Range, stride: Stride, v: int)
    requires
        stride.stands_for(range),
        range.fits(0, FIELD_MAX as int),
        range.first <= v <= range.last,
    ensures
        range.contains(v) <==> (v - stride.first) % (stride.step as int) == 0,
{
    if range.step >= NUMBER_CAP {
        lemma_small_mod((v - range.first) as nat, range.step as nat);
        lemma_small_mod((v - range.first) as nat, NUMBER_CAP as nat);
    }
}

/// Reads one item of a field with the values `lo..=hi`.
fn parse_item(chars: &Vec<char>, span: Span, lo: usize, hi: usize) -> (r: Option<Stride>)
    requires
        span.within(chars@.len()),
        lo <= hi <= FIELD_MAX,
    ensures
        match r {
            Some(stride) => item_range(span.of(chars@), lo as int, hi as int) matches Some(range)
                && stride.stands_for(range) && range.fits(lo as int, hi as int),
            None => item_range(span.of(chars@), lo as int, hi as int) is None,
        },
{
    let ghost item = span.of(chars@);
    let parts = split_span(chars, span, Delimiter::Slash);
    proof {
        lemma_split_nonempty(item, Delimiter::Slash);
        assert(pieces(chars@, parts@).len() == parts@.len());
    }
    if parts.len() > 2 {
        return None;
    }
    let stepped = parts.len() == 2;
    let mut step: u32 = 1;
    if stepped {
        assert(parts@[1].within(chars@.len()));
        assert(pieces(chars@, parts@)[1] == parts@[1].of(chars@));
        match parse_number(chars, parts[1]) {
            Some(n) => {
                step = n;
            },
            None => {
                return None;
            },
        }
    }
    assert(parts@[0].within(chars@.len()));
    assert(pieces(chars@, parts@)[0] == parts@[0].of(chars@));
    let base = parts[0];
    let ghost base_text = base.of(chars@);
    let first: u32;
    let last: u32;
    if base.end - base.start == 1 && chars[base.start] == '*' {
        assert(base_text =~= seq!['*']);
        first = lo as u32;
        last = hi as u32;
    } else {
        proof {
            if base_text == seq!['*'] {
                assert(base_text.len() == 1);
                assert(base_text[0] == '*');
                assert(base_text[0] == chars@[base.start as int]);
            }
        }
        let ends = split_span(chars, base, Delimiter::Dash);
        proof {
            lemma_split_nonempty(base_text, Delimiter::Dash);
            assert(pieces(chars@, ends@).len() == ends@.len());
        }
        if ends.len() == 1 {
            assert(ends@[0].within(chars@.len()));
            assert(pieces(chars@, ends@)[0] == ends@[0].of(chars@));
            match parse_number(chars, ends[0]) {
                Some(a) => {
                    first = a;
                    last = if stepped {
                        hi as u32
                    } else {
                        a
                    };
                },
                None => {
                    return None;
                },
            }
        } else if ends.len() == 2 {
            assert(ends@[0].within(chars@.len()));
            assert(ends@[1].within(chars@.len()));
            assert(pieces(chars@, ends@)[0] == ends@[0].of(chars@));
            assert(pieces(chars@, ends@)[1] == ends@[1].of(chars@));
            match parse_number(chars, ends[0]) {
                Some(a) => {
                    match parse_number(chars, ends[1]) {
                        Some(b) => {
                            first = a;
                            last = b;
                        },
                        None => {
                            return None;
                        },
                    }
                },
                None => {
                    return None;
                },
            }
        } else {
            return None;
        }
    }
    if lo as u32 <= first && first <= last && last <= hi as u32 && step >= 1 {
        Some(Stride { first: first as usize, last: last as usize, step: step as usize })
    } else {
        None
    }
}

/// A mask of `len` flags, none of them set.
fn blank_mask(len: usize) -> (mask: Vec<bool>)
    ensures
        mask@.len() == len,
        forall|v: int| 0 <= v < len ==> !(#[trigger] mask@[v]),
{
    let mut mask: Vec<bool> = Vec::new();
    let mut n: usize = 0;
    while n < len
        invariant
            n <= len,
            mask@.len() == n,
            forall|v: int| 0 <= v < n ==> !(#[trigger] mask@[v]),
        decreases len - n,
    {
        mask.push(false);
        n = n + 1;
    }
    mask
}

/// Sets the flags of the values that `stride` lists.
fn mark_stride(mask: &mut Vec<bool>, stride: &Stride, range: Ghost<Range>)
    requires
        stride.stands_for(range@),
        range@.fits(0, FIELD_MAX as int),
        stride.last < old(mask)@.len(),
    ensures
        final(mask)@.len() == old(mask)@.len(),
        forall|v: int|
            0 <= v < old(mask)@.len() ==> (#[trigger] final(mask)@[v] <==> old(mask)@[v]
                || range@.contains(v)),
{
    let mut v: usize = stride.first;
    while v <= stride.last
        invariant
            stride.stands_for(range@),
            range@.fits(0, FIELD_MAX as int),
            stride.first <= v <= stride.last + 1,
            stride.last < mask@.len(),
            mask@.len() == old(mask)@.len(),
            forall|u: int|
                0 <= u < mask@.len() ==> (#[trigger] mask@[u] <==> old(mask)@[u] || (u < v
                    && range@.contains(u))),
        decreases stride.last + 1 - v,
    {
        proof {
            lemma_capped_step(range@, *stride, v as int);
        }
        if (v - stride.first) % stride.step == 0 {
            mask.set(v, true);
        }
        v = v + 1;
    }
}

/// Reads a field with the values `lo..=hi`. Flag `v` of the result tells
/// whether the field lists `v`.
fn parse_field(chars: &Vec<char>, span: Span, lo: usize, hi: usize) -> (r: Option<Vec<bool>>)
    requires
        span.within(chars@.len()),
        lo <= hi <= FIELD_MAX,
    ensures
        match r {
            Some(mask) => {
                &&& mask@.len() == hi + 1
                &&& field_values(span.of(chars@), lo as int, hi as int) == Some(set_of(mask@))
                &&& exists|v: int| set_of(mask@).contains(v)
                &&& forall|v: int| set_of(mask@).contains(v) ==> lo <= v <= hi
            },
            None => field_values(span.of(chars@), lo as int, hi as int) is None,
        },
{
    let ghost field = span.of(chars@);
    let ghost ranges = field_ranges(field, lo as int, hi as int);
    let items = split_span(chars, span, Delimiter::Comma);
    proof {
        lemma_split_nonempty(field, Delimiter::Comma);
        assert(pieces(chars@, items@).len() == items@.len());
    }
    let mut mask = blank_mask(hi + 1);
    let ghost mut witness: int = 0;
    let mut k: usize = 0;
    while k < items.len()
        invariant
            k <= items@.len(),
            lo <= hi <= FIELD_MAX,
            mask@.len() == hi + 1,
            field == span.of(chars@),
            ranges == field_ranges(field, lo as int, hi as int),
            ranges.len() == items@.len(),
            pieces(chars@, items@) == split(field, Delimiter::Comma),
            forall|i: int| 0 <= i < items@.len() ==> (#[trigger] items@[i]).within(chars@.len()),
            forall|i: int| 0 <= i < k ==> (#[trigger] ranges[i]) is Some,
            forall|v: int|
                0 <= v <= hi ==> (#[trigger] mask@[v] <==> exists|i: int|
                    i < k && listed_by(ranges, i, v)),
            k > 0 ==> 0 <= witness <= hi && mask@[witness],
        decreases items@.len() - k,
    {
        assert(items@[k as int].within(chars@.len()));
        assert(pieces(chars@, items@)[k as int] == items@[k as int].of(chars@));
        assert(ranges[k as int] == item_range(items@[k as int].of(chars@), lo as int, hi as int));
        match parse_item(chars, items[k], lo, hi) {
            None => {
                assert(ranges[k as int] is None);
                return None;
            },
            Some(stride) => {
                let ghost range = ranges[k as int]->0;
                let ghost before = mask@;
                mark_stride(&mut mask, &stride, Ghost(range));
                proof {
                    lemma_small_mod(0, range.step as nat);
                    assert(range.contains(range.first));
                    witness = range.first;
                    assert forall|v: int| 0 <= v <= hi implies (#[trigger] mask@[v] <==> exists|
                        i: int,
                    |
                        i < k + 1 && listed_by(ranges, i, v)) by {
                        if mask@[v] {
                            if before[v] {
                                let i = choose|i: int| i < k && listed_by(ranges, i, v);
                                assert(i < k + 1 && listed_by(ranges, i, v));
                            } else {
                                assert(listed_by(ranges, k as int, v));
                            }
                        }
                        if exists|i: int| i < k + 1 && listed_by(ranges, i, v) {
                            let i = choose|i: int| i < k + 1 && listed_by(ranges, i, v);
                            if i < k {
                                assert(before[v]);
                            }
                        }
                    }
                }
            },
        }
        k = k + 1;
    }
    proof {
        let listed = Set::new(|v: int| exists|i: int| listed_by(ranges, i, v));
        assert forall|v: int| listed.contains(v) <==> set_of(mask@).contains(v) by {
            if listed.contains(v) {
                let i = choose|i: int| listed_by(ranges, i, v);
                assert(ranges[i]->0.fits(lo as int, hi as int));
                assert(i < k && listed_by(ranges, i, v));
            }
            if set_of(mask@).contains(v) {
                let i = choose|i: int| i < k && listed_by(ranges, i, v);
                assert(listed_by(ranges, i, v));
            }
        }
        assert(listed =~= set_of(mask@));
        assert(set_of(mask@).contains(witness));
        assert forall|v: int| set_of(mask@).contains(v) implies lo <= v <= hi by {
            let i = choose|i: int| i < k && listed_by(ranges, i, v);
            assert(ranges[i]->0.fits(lo as int, hi as int));
        }
    }
    Some(mask)
}

/// The fields of an expression: its pieces between white space, without
/// the empty ones.
pub open spec fn fields(expression: Seq<char>) -> Seq<Seq<char>> {
    split(expression, Delimiter::Space).filter(|piece: Seq<char>| piece.len() > 0)
}

/// The spans of the fields of the expression `chars`.
fn field_spans(chars: &Vec<char>) -> (r: Vec<Span>)
    ensures
        pieces(chars@, r@) == fields(chars@),
        forall|i: int| 0 <= i < r@.len() ==> (#[trigger] r@[i]).within(chars@.len()),
{
    let ghost s = chars@;
    let ghost filled = |piece: Seq<char>| piece.len() > 0;
    let all = Span { start: 0, end: chars.len() };
    assert(all.of(s) =~= s);
    let spans = split_span(chars, all, Delimiter::Space);
    let mut kept: Vec<Span> = Vec::new();
    let mut i: usize = 0;
    assert(pieces(s, spans@.take(0)) =~= Seq::empty());
    assert(pieces(s, kept@) =~= Seq::empty());
    while i < spans.len()
        invariant
            i <= spans@.len(),
            s == chars@,
            filled == |piece: Seq<char>| piece.len() > 0,
            forall|k: int| 0 <= k < spans@.len() ==> (#[trigger] spans@[k]).within(s.len()),
            forall|k: int| 0 <= k < kept@.len() ==> (#[trigger] kept@[k]).within(s.len()),
            pieces(s, kept@) == pieces(s, spans@.take(i as int)).filter(filled),
        decreases spans@.len() - i,
    {
        let span = spans[i];
        assert(span.within(s.len()));
        proof {
            reveal(Seq::filter);
            let seen = pieces(s, spans@.take(i as int));
            assert(pieces(s, spans@.take(i + 1)) =~= seen.push(span.of(s)));
            assert(seen.push(span.of(s)).drop_last() =~= seen);
        }
        if span.start < span.end {
            let ghost before = pieces(s, kept@);
            kept.push(span);
            assert(pieces(s, kept@) =~= before.push(span.of(s)));
        }
        i = i + 1;
    }
    assert(spans@.take(i as int) =~= spans@);
    kept
}

/// The times that a cron expression matches, field by field.
pub struct CronView {
    /// The seconds, from 0 to 59.
    pub seconds: Set<int>,
    /// The minutes, from 0 to 59.
    pub minutes: Set<int>,
    /// The hours, from 0 to 23.
    pub hours: Set<int>,
    /// The days of the month, from 1 to 31.
    pub days: Set<int>,
    /// The months, from 1 to 12.
    pub months: Set<int>,
    /// The days of the week, from 0 for Sunday to 6 for Saturday.
    pub weekdays: Set<int>,
}

/// The days of the week that a field lists, with 7 read as Sunday.
pub open spec fn fold_sunday(values: Set<int>) -> Set<int> {
    Set::new(|d: int| 0 <= d < 7 && (values.contains(d) || (d == 0 && values.contains(7))))
}

/// The schedule of the five fields `f` (minute, hour, day of month, month,
/// day of week) with the given seconds.
pub open spec fn cron_from(seconds: Option<Set<int>>, f: Seq<Seq<char>>) -> Option<CronView> {
    match (
        seconds,
        field_values(f[0], 0, 59),
        field_values(f[1], 0, 23),
        field_values(f[2], 1, 31),
        field_values(f[3], 1, 12),
        field_values(f[4], 0, 7),
    ) {
        (
            Some(seconds),
            Some(minutes),
            Some(hours),
            Some(days),
            Some(months),
            Some(weekdays),
        ) => Some(
            CronView { seconds, minutes, hours, days, months, weekdays: fold_sunday(weekdays) },
        ),
        _ => None,
    }
}

/// What a cron expression means, if it follows the grammar. With five
/// fields the second is 0.
pub open spec fn cron_of(expression: Seq<char>) -> Option<CronView> {
    let f = fields(expression);
    if f.len() == 5 {
        cron_from(Some(set![0int]), f)
    } else if f.len() == 6 {
        cron_from(field_values(f[0], 0, 59), f.drop_first())
    } else {
        None
    }
}

/// Whether the schedule lists the time of day.
pub open spec fn time_matches(cron: CronView, hour: int, minute: int, second: int) -> bool {
    cron.hours.contains(hour) && cron.minutes.contains(minute) && cron.seconds.contains(second)
}

/// Whether the schedule lists the date: its month, its day of the month,
/// and its day of the week.
pub open spec fn date_matches(cron: CronView, date: CivilDate) -> bool {
    cron.months.contains(date.month as int) && cron.days.contains(date.day as int)
        && cron.weekdays.contains(date.weekday())
}

/// Whether the schedule fires at `t`.
pub open spec fn fires_at(cron: CronView, t: CivilTime) -> bool {
    date_matches(cron, t.date()) && time_matches(
        cron,
        t.hour as int,
        t.minute as int,
        t.second as int,
    )
}

/// Whether `found` is the first time after `after` at which the schedule
/// fires.
pub open spec fn is_next(cron: CronView, after: CivilTime, found: CivilTime) -> bool {
    &&& found.valid()
    &&& after.stamp() < found.stamp()
    &&& fires_at(cron, found)
    &&& forall|t: CivilTime|
        t.valid() && after.stamp() < t.stamp() < found.stamp() ==> !#[trigger] fires_at(cron, t)
}

/// Whether the schedule never fires after `after`, up to the end of the
/// calendar.
pub open spec fn none_after(cron: CronView, after: CivilTime) -> bool {
    forall|t: CivilTime| t.valid() && after.stamp() < t.stamp() ==> !#[trigger] fires_at(cron, t)
}

/// A later time of day has a later hour, or the same hour and a later
/// minute, or the same hour and minute and a later second.
proof fn lemma_later_time(h: int, m: int, s: int, h3: int, m3: int, s3: int)
    requires
        valid_time_of_day(h, m, s),
        valid_time_of_day(h3, m3, s3),
    ensures
        second_of_day(h, m, s) < second_of_day(h3, m3, s3) <==> (h < h3 || (h == h3 && (m < m3 || (
        m == m3 && s < s3)))),
{
}

/// The first set flag of `mask` at or after `from`.
fn next_flag(mask: &Vec<bool>, from: usize) -> (r: Option<usize>)
    ensures
        match r {
            Some(v) => from <= v < mask@.len() && mask@[v as int] && forall|u: int|
                from <= u < v ==> !#[trigger] mask@[u],
            None => forall|u: int| from <= u < mask@.len() ==> !#[trigger] mask@[u],
        },
{
    let mut v: usize = from;
    while v < mask.len()
        invariant
            from <= v,
            forall|u: int| from <= u < v && u < mask@.len() ==> !#[trigger] mask@[u],
        decreases mask@.len() - v,
    {
        if mask[v] {
            return Some(v);
        }
        v = v + 1;
    }
    None
}

/// The least value whose flag is set in `mask`.
fn least_flag(mask: &Vec<bool>) -> (r: i8)
    requires
        mask@.len() <= 60,
        exists|v: int| set_of(mask@).contains(v),
    ensures
        set_of(mask@).contains(r as int),
        forall|v: int| #[trigger] set_of(mask@).contains(v) ==> r <= v,
{
    match next_flag(mask, 0) {
        Some(v) => v as i8,
        None => {
            proof {
                let v = choose|v: int| set_of(mask@).contains(v);
                assert(mask@[v]);
            }
            0
        },
    }
}

/// A parsed cron expression.
#[derive(Debug)]
pub struct CronSchedule {
    seconds: Vec<bool>,
    minutes: Vec<bool>,
    hours: Vec<bool>,
    days: Vec<bool>,
    months: Vec<bool>,
    weekdays: Vec<bool>,
}

impl View for CronSchedule {
    type V = CronView;

    closed spec fn view(&self) -> CronView {
        CronView {
            seconds: set_of(self.seconds@),
            minutes: set_of(self.minutes@),
            hours: set_of(self.hours@),
            days: set_of(self.days@),
            months: set_of(self.months@),
            weekdays: set_of(self.weekdays@),
        }
    }
}

/// Whether `mask` has `len` flags, at least one of them set.
pub open spec fn mask_ok(mask: Seq<bool>, len: int) -> bool {
    mask.len() == len && exists|v: int| set_of(mask).contains(v)
}

impl CronSchedule {
    /// Every field has its full range of flags, and lists some value.
    #[verifier::type_invariant]
    closed spec fn complete(&self) -> bool {
        &&& mask_ok(self.seconds@, 60)
        &&& mask_ok(self.minutes@, 60)
        &&& mask_ok(self.hours@, 24)
        &&& mask_ok(self.days@, 32)
        &&& mask_ok(self.months@, 13)
        &&& mask_ok(self.weekdays@, 7)
    }

    /// Reads a cron expression.
    pub fn parse(expression: &str) -> (r: Result<CronSchedule, ScheduleError>)
        ensures
            match r {
                Ok(cron) => cron_of(expression@) == Some(cron@),
                Err(e) => e == ScheduleError::InvalidExpression && cron_of(expression@) is None,
            },
    {
        let chars = chars_of(expression);
        let spans = field_spans(&chars);
        let ghost f = fields(expression@);
        assert(pieces(chars@, spans@).len() == spans@.len());
        let count = spans.len();
        if count != 5 && count != 6 {
            return Err(ScheduleError::InvalidExpression);
        }
        let at: usize = count - 5;
        let ghost five = if count == 5 {
            f
        } else {
            f.drop_first()
        };
        assert forall|i: int| 0 <= i < 5 implies #[trigger] five[i] == spans@[at + i].of(
            chars@,
        ) by {
            assert(spans@[at + i].within(chars@.len()));
            assert(pieces(chars@, spans@)[at + i] == spans@[at + i].of(chars@));
        }
        assert(forall|i: int| 0 <= i < count ==> (#[trigger] spans@[i]).within(chars@.len()));
        let seconds = if count == 6 {
            assert(pieces(chars@, spans@)[0] == spans@[0].of(chars@));
            match parse_field(&chars, spans[0], 0, 59) {
                Some(mask) => mask,
                None => {
                    return Err(ScheduleError::InvalidExpression);
                },
            }
        } else {
            let mut mask = blank_mask(60);
            mask.set(0, true);
            assert(set_of(mask@) =~= set![0int]);
            assert(set_of(mask@).contains(0));
            mask
        };
        assert(five[0] == spans@[at + 0].of(chars@));
        let minutes = match parse_field(&chars, spans[at], 0, 59) {
            Some(mask) => mask,
            None => {
                return Err(ScheduleError::InvalidExpression);
            },
        };
        assert(five[1] == spans@[at + 1].of(chars@));
        let hours = match parse_field(&chars, spans[at + 1], 0, 23) {
            Some(mask) => mask,
            None => {
                return Err(ScheduleError::InvalidExpression);
            },
        };
        assert(five[2] == spans@[at + 2].of(chars@));
        let days = match parse_field(&chars, spans[at + 2], 1, 31) {
            Some(mask) => mask,
            None => {
                return Err(ScheduleError::InvalidExpression);
            },
        };
        assert(five[3] == spans@[at + 3].of(chars@));
        let months = match parse_field(&chars, spans[at + 3], 1, 12) {
            Some(mask) => mask,
            None => {
                return Err(ScheduleError::InvalidExpression);
            },
        };
        assert(five[4] == spans@[at + 4].of(chars@));
        let listed = match parse_field(&chars, spans[at + 4], 0, 7) {
            Some(mask) => mask,
            None => {
                return Err(ScheduleError::InvalidExpression);
            },
        };
        let mut weekdays = blank_mask(7);
        let mut d: usize = 0;
        while d < 7
            invariant
                d <= 7,
                listed@.len() == 8,
                weekdays@.len() == 7,
                forall|v: int|
                    0 <= v < d ==> (#[trigger] weekdays@[v] <==> listed@[v] || (v == 0
                        && listed@[7])),
            decreases 7 - d,
        {
            let on = listed[d] || (d == 0 && listed[7]);
            weekdays.set(d, on);
            d = d + 1;
        }
        proof {
            assert(set_of(weekdays@) =~= fold_sunday(set_of(listed@)));
            let v = choose|v: int| set_of(listed@).contains(v);
            let w = if v == 7 {
                0
            } else {
                v
            };
            assert(set_of(weekdays@).contains(w));
        }
        let cron = CronSchedule { seconds, minutes, hours, days, months, weekdays };
        Ok(cron)
    }

    /// Tells whether the schedule fires at `t`. It does not fire at a civil
    /// time that does not exist.
    pub fn accepts(&self, t: &CivilTime) -> (r: bool)
        ensures
            r == (t.valid() && fires_at(self@, *t)),
    {
        proof {
            use_type_invariant(self);
        }
        if !t.is_valid() {
            return false;
        }
        let date = CivilDate { year: t.year, month: t.month, day: t.day };
        self.accepts_date(&date, date.day_of_week()) && self.hours[t.hour as usize]
            && self.minutes[t.minute as usize] && self.seconds[t.second as usize]
    }

    /// Tells whether the schedule lists `date`, whose day of the week is
    /// `weekday`.
    fn accepts_date(&self, date: &CivilDate, weekday: u8) -> (r: bool)
        requires
            date.valid(),
            weekday == date.weekday(),
        ensures
            r == date_matches(self@, *date),
    {
        proof {
            use_type_invariant(self);
        }
        self.months[date.month as usize] && self.days[date.day as usize]
            && self.weekdays[weekday as usize]
    }

    /// The earliest time of day that the schedule lists.
    fn first_time(&self) -> (r: (i8, i8, i8))
        ensures
            valid_time_of_day(r.0 as int, r.1 as int, r.2 as int),
            time_matches(self@, r.0 as int, r.1 as int, r.2 as int),
            forall|h: int, m: int, s: int|
                valid_time_of_day(h, m, s) && #[trigger] time_matches(self@, h, m, s)
                    ==> second_of_day(r.0 as int, r.1 as int, r.2 as int) <= second_of_day(h, m, s),
    {
        proof {
            use_type_invariant(self);
        }
        (least_flag(&self.hours), least_flag(&self.minutes), least_flag(&self.seconds))
    }

    /// The earliest time of day after the given one that the schedule
    /// lists, if the day has one.
    fn later_time(&self, hour: i8, minute: i8, second: i8) -> (r: Option<(i8, i8, i8)>)
        requires
            valid_time_of_day(hour as int, minute as int, second as int),
        ensures
            match r {
                Some(t) => {
                    &&& valid_time_of_day(t.0 as int, t.1 as int, t.2 as int)
                    &&& time_matches(self@, t.0 as int, t.1 as int, t.2 as int)
                    &&& second_of_day(hour as int, minute as int, second as int) < second_of_day(
                        t.0 as int,
                        t.1 as int,
                        t.2 as int,
                    )
                    &&& forall|h: int, m: int, s: int|
                        valid_time_of_day(h, m, s) && #[trigger] time_matches(self@, h, m, s)
                            && second_of_day(hour as int, minute as int, second as int)
                            < second_of_day(h, m, s) ==> second_of_day(
                            t.0 as int,
                            t.1 as int,
                            t.2 as int,
                        ) <= second_of_day(h, m, s)
                },
                None => forall|h: int, m: int, s: int|
                    valid_time_of_day(h, m, s) && second_of_day(
                        hour as int,
                        minute as int,
                        second as int,
                    ) < second_of_day(h, m, s) ==> !#[trigger] time_matches(self@, h, m, s),
            },
    {
        proof {
            use_type_invariant(self);
        }
        let h = hour as usize;
        let m = minute as usize;
        let s = second as usize;
        let same_minute = if self.hours[h] && self.minutes[m] {
            next_flag(&self.seconds, s + 1)
        } else {
            None
        };
        if let Some(s2) = same_minute {
            proof {
                assert forall|h3: int, m3: int, s3: int|
                    valid_time_of_day(h3, m3, s3) && #[trigger] time_matches(self@, h3, m3, s3)
                        && second_of_day(h as int, m as int, s as int) < second_of_day(
                        h3,
                        m3,
                        s3,
                    ) implies second_of_day(h as int, m as int, s2 as int) <= second_of_day(
                    h3,
                    m3,
                    s3,
                ) by {
                    lemma_later_time(h as int, m as int, s as int, h3, m3, s3);
                    if h3 == h && m3 == m {
                        assert(self.seconds@[s3]);
                    }
                }
            }
            return Some((hour, minute, s2 as i8));
        }
        let same_hour = if self.hours[h] {
            next_flag(&self.minutes, m + 1)
        } else {
            None
        };
        if let Some(m2) = same_hour {
            let s0 = least_flag(&self.seconds);
            proof {
                assert forall|h3: int, m3: int, s3: int|
                    valid_time_of_day(h3, m3, s3) && #[trigger] time_matches(self@, h3, m3, s3)
                        && second_of_day(h as int, m as int, s as int) < second_of_day(
                        h3,
                        m3,
                        s3,
                    ) implies second_of_day(h as int, m2 as int, s0 as int) <= second_of_day(
                    h3,
                    m3,
                    s3,
                ) by {
                    lemma_later_time(h as int, m as int, s as int, h3, m3, s3);
                    assert(set_of(self.seconds@).contains(s3));
                    if h3 == h {
                        assert(self.minutes@[m3]);
                        if m3 == m {
                            assert(self.seconds@[s3]);
                        }
                    }
                }
            }
            return Some((hour, m2 as i8, s0));
        }
        match next_flag(&self.hours, h + 1) {
            Some(h2) => {
                let m0 = least_flag(&self.minutes);
                let s0 = least_flag(&self.seconds);
                proof {
                    assert forall|h3: int, m3: int, s3: int|
                        valid_time_of_day(h3, m3, s3) && #[trigger] time_matches(self@, h3, m3, s3)
                            && second_of_day(h as int, m as int, s as int) < second_of_day(
                            h3,
                            m3,
                            s3,
                        ) implies second_of_day(h2 as int, m0 as int, s0 as int) <= second_of_day(
                        h3,
                        m3,
                        s3,
                    ) by {
                        lemma_later_time(h as int, m as int, s as int, h3, m3, s3);
                        assert(set_of(self.seconds@).contains(s3));
                        assert(set_of(self.minutes@).contains(m3));
                        assert(self.hours@[h3]);
                        if h3 == h {
                            assert(self.minutes@[m3]);
                            if m3 == m {
                                assert(self.seconds@[s3]);
                            }
                        }
                    }
                }
                Some((h2 as i8, m0, s0))
            },
            None => {
                proof {
                    assert forall|h3: int, m3: int, s3: int|
                        valid_time_of_day(h3, m3, s3) && second_of_day(
                            h as int,
                            m as int,
                            s as int,
                        ) < second_of_day(h3, m3, s3) implies !#[trigger] time_matches(
                        self@,
                        h3,
                        m3,
                        s3,
                    ) by {
                        lemma_later_time(h as int, m as int, s as int, h3, m3, s3);
                        if time_matches(self@, h3, m3, s3) {
                            assert(self.hours@[h3]);
                            if h3 == h {
                                assert(self.minutes@[m3]);
                                if m3 == m {
                                    assert(self.seconds@[s3]);
                                }
                            }
                        }
                    }
                }
                None
            },
        }
    }

    /// The first time after `after` at which the schedule fires. There is
    /// none if the schedule does not fire again before the calendar ends,
    /// and none if `after` does not exist.
    pub fn next_after(&self, after: &CivilTime) -> (r: Option<CivilTime>)
        ensures
            match r {
                Some(found) => after.valid() && is_next(self@, *after, found),
                None => !after.valid() || none_after(self@, *after),
            },
    {
        proof {
            use_type_invariant(self);
        }
        if !after.is_valid() {
            return None;
        }
        let mut date = CivilDate { year: after.year, month: after.month, day: after.day };
        let mut weekday = date.day_of_week();
        let ghost start = *after;
        let ghost cron = self@;
        if self.accepts_date(&date, weekday) {
            match self.later_time(after.hour, after.minute, after.second) {
                Some((hour, minute, second)) => {
                    let found = CivilTime {
                        year: date.year,
                        month: date.month,
                        day: date.day,
                        hour,
                        minute,
                        second,
                    };
                    proof {
                        assert forall|t: CivilTime|
                            t.valid() && start.stamp() < t.stamp() < found.stamp() implies !fires_at(
                            cron,
                            t,
                        ) by {
                            lemma_date_order(t.date(), date);
                        }
                    }
                    return Some(found);
                },
                None => {},
            }
        }
        proof {
            assert forall|t: CivilTime|
                t.valid() && start.stamp() < t.stamp() && t.date().stamp()
                    <= date.stamp() implies !fires_at(cron, t) by {
                lemma_date_order(t.date(), date);
            }
        }
        let first = self.first_time();
        loop
            invariant
                cron == self@,
                start == *after,
                start.valid(),
                date.valid(),
                weekday == date.weekday(),
                start.date().stamp() <= date.stamp(),
                valid_time_of_day(first.0 as int, first.1 as int, first.2 as int),
                time_matches(cron, first.0 as int, first.1 as int, first.2 as int),
                forall|h: int, m: int, s: int|
                    valid_time_of_day(h, m, s) && #[trigger] time_matches(cron, h, m, s)
                        ==> second_of_day(first.0 as int, first.1 as int, first.2 as int)
                        <= second_of_day(h, m, s),
                forall|t: CivilTime|
                    t.valid() && start.stamp() < t.stamp() && t.date().stamp() <= date.stamp()
                        ==> !#[trigger] fires_at(cron, t),
            decreases (CivilDate { year: 9999, month: 12, day: 31 }).stamp() - date.stamp(),
        {
            let ghost previous = date;
            match date.next() {
                None => {
                    return None;
                },
                Some(next) => {
                    proof {
                        lemma_successor(date);
                        lemma_successor_weekday(date);
                    }
                    date = next;
                    weekday = if weekday == 6 {
                        0
                    } else {
                        weekday + 1
                    };
                },
            }
            if self.accepts_date(&date, weekday) {
                let found = CivilTime {
                    year: date.year,
                    month: date.month,
                    day: date.day,
                    hour: first.0,
                    minute: first.1,
                    second: first.2,
                };
                proof {
                    assert forall|t: CivilTime|
                        t.valid() && start.stamp() < t.stamp() < found.stamp() implies !fires_at(
                        cron,
                        t,
                    ) by {
                        lemma_date_order(t.date(), date);
                        if t.date().stamp() < date.stamp() {
                            if previous.stamp() < t.date().stamp() {
                                assert(date.stamp() <= t.date().stamp());
                            }
                        }
                    }
                }
                return Some(found);
            }
            proof {
                assert forall|t: CivilTime|
                    t.valid() && start.stamp() < t.stamp() && t.date().stamp()
                        <= date.stamp() implies !fires_at(cron, t) by {
                    lemma_date_order(t.date(), date);
                    if t.date().stamp() < date.stamp() {
                        if previous.stamp() < t.date().stamp() {
                            assert(date.stamp() <= t.date().stamp());
                        }
                    }
                }
            }
        }
    }
}

} // verus!
