//! Generation of a day's pending queue: random pokes spread over the active
//! window, fixed-time pokes, and repeating interval pokes, merged by time.

use vstd::prelude::*;
use vstd::string::*;

use crate::config::{Config, MessageTemplate, RandomPerDay};
use crate::rng::{gen_range, DrawSource};
use crate::state::{PendingPoke, PokeKind};
use crate::time::{
    local_datetime_at_time, LocalDate, TimeOfDay, Timestamp, Weekday, MAX_EPOCH_DAY,
    SECONDS_PER_DAY,
};

verus! {

/// How many tries the random times get before the day is given up.
pub const MAX_ATTEMPTS: usize = 1000;

/// The largest minimum spacing, in minutes, that `chrono::Duration::minutes`
/// accepts (its range is `i64::MAX` milliseconds either way).
pub const MAX_SPACING_MINUTES: i64 = 153_722_867_280_912;

/// Why a day's schedule could not be built.
#[derive(Clone, Copy, Debug, PartialEq, Eq, Structural)]
pub enum ScheduleError {
    /// An hour outside `0..=23` for a wall-clock time.
    InvalidHour(u32),
    /// The wall-clock time does not occur on that day in the local zone.
    NonexistentLocalTime(LocalDate, TimeOfDay),
    /// There is no day after this one.
    DateOverflow(LocalDate),
    /// The window's end is not after its start on that day.
    EmptyWindow(LocalDate),
    /// The window cannot hold the day's random pokes at the minimum spacing.
    Infeasible { count: usize, spacing_minutes: i64 },
    /// No spread of random times met the minimum spacing within the tries.
    Exhausted { count: usize, spacing_minutes: i64 },
}

/// The instant a wall-clock time on a day resolves to, or why it does not
/// exist.
pub fn local_datetime_at(date: LocalDate, time: TimeOfDay) -> (r: Result<Timestamp, ScheduleError>)
    ensures
        r matches Ok(ts) ==> ts.local_secs() == date.days * SECONDS_PER_DAY + time.seconds() && -86400
            < ts.offset < 86400,
        r matches Err(e) ==> e == ScheduleError::NonexistentLocalTime(date, time),
{
    match local_datetime_at_time(date, time) {
        Some(ts) => Ok(ts),
        None => Err(ScheduleError::NonexistentLocalTime(date, time)),
    }
}

/// The instant of the full hour `hour` on a day.
pub fn local_datetime(date: LocalDate, hour: u32) -> (r: Result<Timestamp, ScheduleError>)
    ensures
        hour >= 24 ==> r == Err::<Timestamp, ScheduleError>(ScheduleError::InvalidHour(hour)),
        r matches Ok(ts) ==> hour < 24 && ts.local_secs() == date.days * SECONDS_PER_DAY + hour
            * 3600 && -86400 < ts.offset < 86400,
        r matches Err(e) ==> hour >= 24 || e == ScheduleError::NonexistentLocalTime(
            date,
            TimeOfDay { hour, minute: 0, second: 0 },
        ),
{
    match TimeOfDay::from_hms(hour, 0, 0) {
        Some(time) => local_datetime_at(date, time),
        None => Err(ScheduleError::InvalidHour(hour)),
    }
}

/// The active window of a day, as instants.
#[derive(Clone, Copy, Debug)]
pub struct ActiveInterval {
    pub start: Timestamp,
    pub end: Timestamp,
}

impl ActiveInterval {
    /// A non-empty window whose instants stay far from the ends of `i64`.
    pub open spec fn wf(self) -> bool {
        &&& self.start.secs < self.end.secs
        &&& -0x4000_0000_0000_0000 < self.start.secs
        &&& self.end.secs < 0x4000_0000_0000_0000
    }
}

/// The active window `[start_hour:00, end_hour:00)` of a day in the local
/// zone; an `end_hour` of 24 means midnight at the start of the next day.
pub fn active_interval(date: LocalDate, start_hour: u32, end_hour: u32) -> (r: Result<
    ActiveInterval,
    ScheduleError,
>)
    ensures
        start_hour >= 24 ==> r == Err::<ActiveInterval, ScheduleError>(
            ScheduleError::InvalidHour(start_hour),
        ),
        end_hour > 24 ==> r is Err,
        end_hour == 24 && date.days >= MAX_EPOCH_DAY ==> r is Err,
        r matches Err(e) ==> match e {
            ScheduleError::InvalidHour(h) => (h == start_hour && h >= 24) || (h == end_hour && h
                > 24),
            ScheduleError::NonexistentLocalTime(d, t) => t.minute == 0 && t.second == 0 && (d
                == date || d.days == date.days + 1),
            ScheduleError::DateOverflow(d) => d == date && end_hour == 24 && date.days
                >= MAX_EPOCH_DAY,
            ScheduleError::EmptyWindow(d) => d == date,
            _ => false,
        },
        r matches Ok(iv) ==> {
            &&& iv.wf()
            &&& iv.start.local_secs() == date.days * SECONDS_PER_DAY + start_hour * 3600
            &&& iv.end.local_secs() == date.days * SECONDS_PER_DAY + end_hour * 3600
            &&& -86400 < iv.start.offset < 86400
            &&& -86400 < iv.end.offset < 86400
        },
{
    let start = match local_datetime(date, start_hour) {
        Ok(ts) => ts,
        Err(e) => return Err(e),
    };
    let end = if end_hour == 24 {
        let next = match date.succ() {
            Some(d) => d,
            None => return Err(ScheduleError::DateOverflow(date)),
        };
        match local_datetime(next, 0) {
            Ok(ts) => ts,
            Err(e) => return Err(e),
        }
    } else {
        match local_datetime(date, end_hour) {
            Ok(ts) => ts,
            Err(e) => return Err(e),
        }
    };
    window_from(date, start, end)
}

/// The window between two resolved instants of a day: empty, and so an
/// error, unless the end comes after the start.
pub fn window_from(date: LocalDate, start: Timestamp, end: Timestamp) -> (r: Result<
    ActiveInterval,
    ScheduleError,
>)
    ensures
        r is Ok <==> start.secs < end.secs,
        r matches Ok(iv) ==> iv == (ActiveInterval { start, end }),
        r matches Err(e) ==> e == ScheduleError::EmptyWindow(date),
{
    if end.secs <= start.secs {
        return Err(ScheduleError::EmptyWindow(date));
    }
    Ok(ActiveInterval { start, end })
}

/// Whether `now`'s local hour lies in `[start_hour, end_hour)`.
pub fn is_within_active_window(now: Timestamp, start_hour: u32, end_hour: u32) -> (r: bool)
    ensures
        r == (start_hour <= now.local_hour() < end_hour),
{
    let hour = now.hour();
    hour >= start_hour && hour < end_hour
}

/// Whether consecutive offsets are at least `spacing` seconds apart.
fn respects_min_spacing(offsets: &Vec<i64>, spacing: i64) -> (r: bool)
    requires
        forall|k: int| 0 <= k < offsets@.len() ==> 0 <= #[trigger] offsets@[k],
    ensures
        r == offsets_spaced(offsets@, spacing as int),
{
    let mut k: usize = 1;
    while k < offsets.len()
        invariant
            1 <= k,
            forall|k: int| 0 <= k < offsets@.len() ==> 0 <= #[trigger] offsets@[k],
            forall|j: int| 0 < j < k && j < offsets@.len() ==> #[trigger] offsets@[j] - offsets@[j
                - 1] >= spacing,
        decreases offsets@.len() - k,
    {
        if offsets[k] - offsets[k - 1] < spacing {
            return false;
        }
        k += 1;
    }
    true
}

/// `baseline + offset`, kept within `1..=usize::MAX`.
pub open spec fn clamped_count(baseline: int, offset: int) -> usize {
    let c = baseline + offset;
    if c < 1 {
        1
    } else if c > usize::MAX {
        usize::MAX
    } else {
        c as usize
    }
}

/// The number of random pokes for a day whose draw came out at `offset`:
/// the weekday's baseline plus the offset, kept within `1..=usize::MAX`.
pub fn count_for_offset(per_day: &RandomPerDay, weekday: Weekday, offset: i128) -> (r: usize)
    requires
        -(usize::MAX as int) <= offset <= usize::MAX,
    ensures
        r == clamped_count(per_day.baseline_spec(weekday) as int, offset as int),
{
    let baseline = per_day.baseline_for(weekday);
    let c = baseline as i128 + offset;
    if c < 1 {
        1
    } else if c > usize::MAX as i128 {
        usize::MAX
    } else {
        c as usize
    }
}

/// The number of random pokes for a day: the weekday's baseline plus a
/// uniform integer in `[-jitter, +jitter]`, kept at least one.
pub fn daily_random_count(
    per_day: &RandomPerDay,
    weekday: Weekday,
    rng: &mut rand::rngs::StdRng,
) -> (r: usize)
    ensures
        exists|offset: int|
            -per_day.jitter <= offset <= per_day.jitter && r == clamped_count(
                per_day.baseline_spec(weekday) as int,
                offset,
            ),
        per_day.jitter == 0 ==> r == clamped_count(per_day.baseline_spec(weekday) as int, 0),
{
    let jitter = per_day.jitter as i128;
    let offset: i128 = if jitter == 0 {
        0
    } else {
        gen_range(rng, -jitter, jitter + 1)
    };
    count_for_offset(per_day, weekday, offset)
}

/// The instants of `pokes` never decrease.
pub open spec fn sorted_by_time(pokes: Seq<PendingPoke>) -> bool {
    forall|i: int, j: int| 0 <= i <= j < pokes.len() ==> #[trigger] pokes[i].at.secs <= #[trigger] pokes[j].at.secs
}

/// Pokes at instant `t`.
pub open spec fn at_instant(t: int) -> spec_fn(PendingPoke) -> bool {
    |p: PendingPoke| p.at.secs == t
}

/// Inserting `p` before the first element not earlier than it, in a sorted
/// sequence, puts it first among the pokes at its instant and leaves the
/// pokes at other instants as they were.
proof fn lemma_insert_keeps_instants(
    r: Seq<PendingPoke>,
    pos: int,
    p: PendingPoke,
    t: int,
)
    requires
        0 <= pos <= r.len(),
        forall|j: int| 0 <= j < pos ==> #[trigger] r[j].at.secs < p.at.secs,
    ensures
        r.insert(pos, p).filter(at_instant(t)) == (seq![p] + r).filter(at_instant(t)),
{
    let f = at_instant(t);
    let a = r.subrange(0, pos);
    let b = r.subrange(pos, r.len() as int);
    assert(r =~= a + b);
    assert(r.insert(pos, p) =~= a + (seq![p] + b));
    assert(seq![p] + r =~= seq![p] + a + b);
    Seq::filter_distributes_over_add(a, seq![p] + b, f);
    Seq::filter_distributes_over_add(seq![p], b, f);
    Seq::filter_distributes_over_add(seq![p] + a, b, f);
    Seq::filter_distributes_over_add(seq![p], a, f);
    Seq::filter_distributes_over_add(a, b, f);
    if p.at.secs == t {
        assert(a.all(|x: PendingPoke| !f(x)));
        a.lemma_all_neg_filter_empty(f);
        assert(a.filter(f) =~= Seq::<PendingPoke>::empty());
    } else {
        assert(seq![p].all(|x: PendingPoke| !f(x)));
        seq![p].lemma_all_neg_filter_empty(f);
        assert(seq![p].filter(f) =~= Seq::<PendingPoke>::empty());
    }
}

/// Sorts pokes by instant, keeping the order of pokes at the same instant.
pub fn sort_by_time(pokes: Vec<PendingPoke>) -> (r: Vec<PendingPoke>)
    ensures
        sorted_by_time(r@),
        forall|t: int| #[trigger] r@.filter(at_instant(t)) == pokes@.filter(at_instant(t)),
        r@.to_multiset() == pokes@.to_multiset(),
{
    broadcast use vstd::seq_lib::group_to_multiset_ensures, vstd::multiset::group_multiset_axioms;

    let mut input = pokes;
    let ghost initial = input@;
    let mut r: Vec<PendingPoke> = Vec::new();
    proof {
        assert(r@.to_multiset() =~= vstd::multiset::Multiset::empty());
        assert(r@.to_multiset().add(input@.to_multiset()) =~= initial.to_multiset());
    }
    // Take the pokes from the back and insert each before the ones at the
    // same instant already placed, so that equal instants keep their order.
    proof {
        assert forall|t: int| #[trigger] r@.filter(at_instant(t)) == initial.subrange(
            input@.len() as int,
            initial.len() as int,
        ).filter(at_instant(t)) by {
            reveal(Seq::filter);
            assert(initial.subrange(input@.len() as int, initial.len() as int) =~= r@);
        }
    }
    while input.len() > 0
        invariant
            sorted_by_time(r@),
            r@.to_multiset().add(input@.to_multiset()) == initial.to_multiset(),
            input@.len() <= initial.len(),
            input@ == initial.take(input@.len() as int),
            forall|t: int| #[trigger] r@.filter(at_instant(t)) == initial.subrange(
                input@.len() as int,
                initial.len() as int,
            ).filter(at_instant(t)),
        decreases input@.len(),
    {
        let ghost before = input@;
        let p = input.pop().unwrap();
        proof {
            assert(before == input@.push(p));
            vstd::seq_lib::to_multiset_build(input@, p);
        }
        let key = p.at.secs;
        let mut pos: usize = 0;
        while pos < r.len() && r[pos].at.secs < key
            invariant
                pos <= r@.len(),
                forall|j: int| 0 <= j < pos ==> #[trigger] r@[j].at.secs < key,
            decreases r@.len() - pos,
        {
            pos += 1;
        }
        let ghost old_r = r@;
        r.insert(pos, p);
        proof {
            vstd::seq_lib::to_multiset_insert(old_r, pos as int, p);
            assert(r@.to_multiset().add(input@.to_multiset()) =~= initial.to_multiset());
            let n = input@.len() as int;
            assert(input@ =~= initial.take(n));
            assert(p == initial[n]);
            assert(initial.subrange(n, initial.len() as int) =~= seq![p] + initial.subrange(
                n + 1,
                initial.len() as int,
            ));
            assert forall|t: int| #[trigger] r@.filter(at_instant(t)) == initial.subrange(
                n,
                initial.len() as int,
            ).filter(at_instant(t)) by {
                lemma_insert_keeps_instants(old_r, pos as int, p, t);
                Seq::filter_distributes_over_add(seq![p], old_r, at_instant(t));
                Seq::filter_distributes_over_add(
                    seq![p],
                    initial.subrange(n + 1, initial.len() as int),
                    at_instant(t),
                );
            }
        }
        assert forall|i: int, j: int| 0 <= i <= j < r@.len() implies #[trigger] r@[i].at.secs
            <= #[trigger] r@[j].at.secs by {
            if i < pos && j > pos {
                assert(r@[i] == old_r[i]);
                assert(r@[j] == old_r[j - 1]);
                assert(old_r[i].at.secs <= old_r[j - 1].at.secs);
            } else if i < pos && j == pos {
                assert(r@[i] == old_r[i]);
            } else if i == pos && j > pos {
                assert(r@[j] == old_r[j - 1]);
                assert(old_r[pos as int].at.secs >= key);
                assert(old_r[pos as int].at.secs <= old_r[j - 1].at.secs);
            } else if i > pos {
                assert(r@[i] == old_r[i - 1]);
                assert(r@[j] == old_r[j - 1]);
            } else if j < pos {
                assert(r@[i] == old_r[i]);
                assert(r@[j] == old_r[j]);
            }
        }
    }
    proof {
        assert(input@ =~= Seq::<PendingPoke>::empty());
        assert(input@.to_multiset() =~= vstd::multiset::Multiset::empty());
        assert(initial.subrange(0, initial.len() as int) =~= initial);
    }
    r
}

/// Start, in seconds from the window's start, of segment `i` when the window
/// of `total` seconds is cut into `count` equal segments.
pub open spec fn segment_start(total: int, count: int, i: int) -> int {
    total * i / count
}

proof fn lemma_segments(total: int, count: int, i: int)
    requires
        0 < total,
        0 < count,
        0 <= i < count,
    ensures
        0 <= segment_start(total, count, i) <= segment_start(total, count, i + 1) <= total,
        segment_start(total, count, i) < total,
{
    vstd::arithmetic::mul::lemma_mul_inequality(i, i + 1, total);
    vstd::arithmetic::mul::lemma_mul_inequality(i + 1, count, total);
    vstd::arithmetic::mul::lemma_mul_strict_inequality(i, count, total);
    vstd::arithmetic::mul::lemma_mul_is_commutative(i, total);
    vstd::arithmetic::mul::lemma_mul_is_commutative(i + 1, total);
    vstd::arithmetic::mul::lemma_mul_is_commutative(count, total);
    vstd::arithmetic::mul::lemma_mul_nonnegative(total, i);
    vstd::arithmetic::div_mod::lemma_div_pos_is_pos(total * i, count);
    vstd::arithmetic::div_mod::lemma_div_is_ordered(total * i, total * (i + 1), count);
    vstd::arithmetic::div_mod::lemma_div_is_ordered(total * (i + 1), total * count, count);
    vstd::arithmetic::div_mod::lemma_div_by_multiple(total, count);
    vstd::arithmetic::div_mod::lemma_multiply_divide_lt(total * i, count, total);
}

/// `offset` seconds from the window's start lies in segment `i`: at or after
/// its start and before its end, or at its start when the segment is empty.
pub open spec fn in_segment(total: int, count: int, i: int, offset: int) -> bool {
    &&& segment_start(total, count, i) <= offset
    &&& offset < segment_start(total, count, i + 1) || offset == segment_start(total, count, i)
}

/// `count - 1` gaps between the random pokes, as `i64` holds it.
pub open spec fn gap_count_of(count: int) -> int {
    if count <= 1 {
        0
    } else if count - 1 > i64::MAX {
        i64::MAX as int
    } else {
        count - 1
    }
}

/// The window of `total` seconds is too small for `count` pokes at the
/// minimum spacing: the gaps would fill it or more.
pub open spec fn density_infeasible(count: int, spacing_minutes: int, total: int) -> bool {
    spacing_minutes > 0 && spacing_minutes * 60 * gap_count_of(count) >= total
}

/// `prefix` followed by the decimal text of `n`.
pub open spec fn numbered(prefix: Seq<char>, n: int) -> Seq<char> {
    prefix + crate::text::decimal(n as nat)
}

/// Id of the `k`-th random poke of a day: `YYYY-MM-DD-random-k`.
pub open spec fn random_id(date: LocalDate, k: int) -> Seq<char> {
    numbered(crate::time::date_text(date.days as int) + "-random-"@, k)
}

/// The `k`-th random poke of a day carries message `m` at a time inside
/// the window.
pub open spec fn random_poke_fits(
    p: PendingPoke,
    date: LocalDate,
    iv: ActiveInterval,
    k: int,
    m: MessageTemplate,
) -> bool {
    &&& p.kind == PokeKind::Random
    &&& iv.start.secs <= p.at.secs < iv.end.secs
    &&& p.at.offset == iv.start.offset
    &&& p.message@ == m.text@
    &&& p.category@ == m.category@
    &&& p.id@ == random_id(date, k)
}

/// The random pokes carry the picked messages, and the picks are those
/// `select_messages` makes: on a day with at least as many pokes as
/// messages, no message of the pool twice before every one has been picked,
/// and each slot a least recently used message of a least
/// recently used allowed category.
pub open spec fn random_picks_fit(
    msgs: Seq<MessageTemplate>,
    recent: Seq<crate::state::RecentMessage>,
    date: LocalDate,
    iv: ActiveInterval,
    pokes: Seq<PendingPoke>,
    picked: Seq<usize>,
) -> bool {
    &&& picked.len() == pokes.len()
    &&& forall|k: int|
        0 <= k < pokes.len() ==> #[trigger] picked[k] < msgs.len() && random_poke_fits(
            pokes[k],
            date,
            iv,
            k,
            msgs[picked[k] as int],
        )
    &&& msgs.len() <= pokes.len() ==> forall|i: usize| i < msgs.len() ==> #[trigger] picked.contains(i)
    &&& msgs.len() <= pokes.len() ==> forall|i: int, j: int|
        0 <= i < j < pokes.len() && j < msgs.len() ==> #[trigger] picked[i] != #[trigger] picked[j]
    &&& forall|k: int|
        0 <= k < pokes.len() ==> #[trigger] crate::rotation::category_repeat_only_when_forced(
            msgs,
            recent,
            picked,
            pokes.len() as int,
            k,
        )
    &&& forall|k: int|
        0 <= k < pokes.len() ==> #[trigger] crate::rotation::message_repeat_only_when_forced(
            msgs,
            recent,
            picked,
            k,
        )
    &&& forall|k: int|
        0 <= k < pokes.len() ==> #[trigger] crate::rotation::slot_choice(
            msgs,
            recent,
            picked,
            pokes.len() as int,
            k,
        )
}

/// A day's random pokes: `count` of them inside the window, the `k`-th in
/// the `k`-th of `count` equal segments of it, in time order and at least
/// the minimum spacing apart, with messages picked by the rotation rules.
pub open spec fn random_part(
    msgs: Seq<MessageTemplate>,
    recent: Seq<crate::state::RecentMessage>,
    date: LocalDate,
    iv: ActiveInterval,
    count: int,
    spacing_minutes: int,
    pokes: Seq<PendingPoke>,
) -> bool {
    &&& pokes.len() == count
    &&& exists|picked: Seq<usize>| #[trigger] random_picks_fit(msgs, recent, date, iv, pokes, picked)
    &&& forall|k: int|
        0 <= k < pokes.len() ==> in_segment(
            iv.end.secs - iv.start.secs,
            count,
            k,
            (#[trigger] pokes[k]).at.secs - iv.start.secs,
        )
    &&& forall|k: int|
        0 < k < pokes.len() ==> #[trigger] pokes[k].at.secs - pokes[k - 1].at.secs >= spacing_minutes
            * 60 && pokes[k - 1].at.secs <= pokes[k].at.secs
}

/// `base` followed by `suffix`.
fn concat(base: &String, suffix: &str) -> (r: String)
    ensures
        r@ == base@ + suffix@,
{
    let mut r = base.clone();
    r.append(suffix);
    r
}

/// `prefix` followed by the decimal text of `n`.
fn numbered_text(prefix: &String, n: u64) -> (r: String)
    ensures
        r@ == numbered(prefix@, n as int),
{
    let digits = crate::text::decimal_string(n);
    concat(prefix, digits.as_str())
}

/// The offsets, in seconds from the window's start, each lie in their own
/// segment of the window cut into as many equal segments as there are
/// offsets.
pub open spec fn in_segments(total: int, offsets: Seq<i64>) -> bool {
    forall|k: int|
        0 <= k < offsets.len() ==> in_segment(total, offsets.len() as int, k, (#[trigger] offsets[k]) as int)
}

/// Consecutive offsets are at least `min_spacing` seconds apart.
pub open spec fn offsets_spaced(offsets: Seq<i64>, min_spacing: int) -> bool {
    forall|k: int| 0 < k < offsets.len() ==> #[trigger] offsets[k] - offsets[k - 1] >= min_spacing
}

/// A draw of `count` offsets, one per segment of a window of `total`
/// seconds, that fails the minimum spacing.
pub open spec fn failed_draw(offsets: Seq<i64>, total: int, count: int, spacing_minutes: int) -> bool {
    &&& offsets.len() == count
    &&& in_segments(total, offsets)
    &&& !offsets_spaced(offsets, spacing_minutes * 60)
}

/// Offsets in their segments lie inside the window and never decrease.
proof fn lemma_offsets_in_window(total: int, offsets: Seq<i64>)
    requires
        0 < total,
        in_segments(total, offsets),
    ensures
        forall|k: int| 0 <= k < offsets.len() ==> 0 <= #[trigger] offsets[k] < total,
        forall|k: int| 0 < k < offsets.len() ==> offsets[k - 1] <= #[trigger] offsets[k],
{
    let c = offsets.len() as int;
    assert forall|k: int| 0 <= k < offsets.len() implies 0 <= #[trigger] offsets[k] < total by {
        lemma_segments(total, c, k);
        assert(in_segment(total, c, k, offsets[k] as int));
    }
    assert forall|k: int| 0 < k < offsets.len() implies offsets[k - 1] <= #[trigger] offsets[k] by {
        lemma_segments(total, c, k - 1);
        lemma_segments(total, c, k);
        assert(in_segment(total, c, k - 1, offsets[k - 1] as int));
        assert(in_segment(total, c, k, offsets[k] as int));
    }
}

/// Draws one offset per segment of the window, each uniformly inside its
/// segment, and records the draw in `source`.
fn draw_offsets(interval: &ActiveInterval, count: usize, source: &mut DrawSource) -> (offsets: Vec<
    i64,
>)
    requires
        interval.wf(),
    ensures
        offsets@.len() == count,
        in_segments(interval.end.secs - interval.start.secs, offsets@),
        final(source).drawn@ == old(source).drawn@.push(offsets@),
{
    let total: i64 = interval.end.secs - interval.start.secs;
    let ghost t = total as int;
    let ghost c = count as int;
    let mut offsets: Vec<i64> = Vec::new();
    let mut index: usize = 0;
    while index < count
        invariant
            interval.wf(),
            total == interval.end.secs - interval.start.secs,
            t == total,
            c == count,
            index <= count,
            offsets@.len() == index,
            source.drawn@ == old(source).drawn@,
            forall|k: int| 0 <= k < index ==> in_segment(t, c, k, (#[trigger] offsets@[k]) as int),
        decreases count - index,
    {
        proof {
            lemma_segments(t, c, index as int);
        }
        assert((total as u128) * (index as u128 + 1) <= 0x8000_0000_0000_0000 * 0x1_0000_0000_0000_0000)
            by (nonlinear_arith)
            requires
                0 < total <= 0x8000_0000_0000_0000,
                0 <= index < 0x1_0000_0000_0000_0000,
        ;
        assert((total as u128) * (index as u128) <= (total as u128) * (index as u128 + 1))
            by (nonlinear_arith)
            requires
                0 < total,
                0 <= index,
        ;
        let seg_start = ((total as u128) * (index as u128) / (count as u128)) as i64;
        let seg_end = ((total as u128) * (index as u128 + 1) / (count as u128)) as i64;
        assert(seg_start == segment_start(t, c, index as int));
        assert(seg_end == segment_start(t, c, index + 1));
        let offset: i64 = if seg_end > seg_start {
            gen_range(&mut source.rng, seg_start as i128, seg_end as i128) as i64
        } else {
            seg_start
        };
        offsets.push(offset);
        index += 1;
    }
    source.drawn = Ghost(source.drawn@.push(offsets@));
    offsets
}

/// Places a day's random pokes at drawn offsets: `None` when two
/// consecutive offsets are closer than the minimum spacing; otherwise one
/// poke per offset, at the window's start plus the offset, with messages
/// picked by the rotation rules.
pub fn place_draws(
    messages: &Vec<MessageTemplate>,
    spacing_minutes: i64,
    recent_history: &Vec<crate::state::RecentMessage>,
    date: LocalDate,
    interval: &ActiveInterval,
    offsets: &Vec<i64>,
    rng: &mut rand::rngs::StdRng,
) -> (r: Option<Vec<PendingPoke>>)
    requires
        interval.wf(),
        date.in_range(),
        -MAX_SPACING_MINUTES <= spacing_minutes <= MAX_SPACING_MINUTES,
        offsets@.len() > 0 ==> messages@.len() > 0,
        in_segments(interval.end.secs - interval.start.secs, offsets@),
    ensures
        r is Some <==> offsets_spaced(offsets@, spacing_minutes * 60),
        r matches Some(pokes) ==> {
            &&& random_part(
                messages@,
                recent_history@,
                date,
                *interval,
                offsets@.len() as int,
                spacing_minutes as int,
                pokes@,
            )
            &&& forall|k: int|
                0 <= k < offsets@.len() ==> (#[trigger] pokes@[k]).at.secs == interval.start.secs
                    + offsets@[k]
        },
{
    let count = offsets.len();
    let ghost total = interval.end.secs - interval.start.secs;
    proof {
        lemma_offsets_in_window(total, offsets@);
    }
    let min_spacing: i64 = spacing_minutes * 60;
    if !respects_min_spacing(offsets, min_spacing) {
        return None;
    }
    let date_text = crate::time::format_date(date);
    proof {
        reveal_strlit("-random-");
    }
    let random_prefix = concat(&date_text, "-random-");
    let picked = crate::rotation::select_messages(messages, count, recent_history, rng);
    let mut pokes: Vec<PendingPoke> = Vec::new();
    let mut k: usize = 0;
    while k < count
        invariant
            k <= count,
            count == offsets@.len(),
            interval.wf(),
            total == interval.end.secs - interval.start.secs,
            in_segments(total, offsets@),
            forall|j: int| 0 <= j < offsets@.len() ==> 0 <= #[trigger] offsets@[j] < total,
            picked@.len() == count,
            forall|j: int| 0 <= j < count ==> #[trigger] picked@[j] < messages@.len(),
            random_prefix@ == crate::time::date_text(date.days as int) + "-random-"@,
            pokes@.len() == k,
            forall|j: int|
                0 <= j < k ==> (#[trigger] pokes@[j]).at.secs == interval.start.secs + offsets@[j]
                    && random_poke_fits(pokes@[j], date, *interval, j, messages@[picked@[j] as int]),
        decreases count - k,
    {
        let m = &messages[picked[k]];
        let id = numbered_text(&random_prefix, k as u64);
        let ghost before = pokes@;
        assert(0 <= offsets@[k as int] < total);
        let at = interval.start.plus_seconds(offsets[k]);
        pokes.push(
            PendingPoke {
                id,
                at,
                message: m.text.clone(),
                category: m.category.clone(),
                kind: PokeKind::Random,
            },
        );
        assert forall|j: int| 0 <= j < k + 1 implies (#[trigger] pokes@[j]).at.secs
            == interval.start.secs + offsets@[j] && random_poke_fits(
            pokes@[j],
            date,
            *interval,
            j,
            messages@[picked@[j] as int],
        ) by {
            if j < k {
                assert(pokes@[j] == before[j]);
            }
        }
        k += 1;
    }
    assert(random_picks_fit(messages@, recent_history@, date, *interval, pokes@, picked@));
    assert forall|j: int| 0 <= j < pokes@.len() implies in_segment(
        total,
        count as int,
        j,
        (#[trigger] pokes@[j]).at.secs - interval.start.secs,
    ) by {
        assert(in_segment(total, count as int, j, offsets@[j] as int));
    }
    assert forall|j: int| 0 < j < pokes@.len() implies #[trigger] pokes@[j].at.secs - pokes@[j
        - 1].at.secs >= spacing_minutes * 60 && pokes@[j - 1].at.secs <= pokes@[j].at.secs by {
        assert(offsets@[j] - offsets@[j - 1] >= min_spacing);
        assert(pokes@[j - 1].at.secs == interval.start.secs + offsets@[j - 1]);
    }
    Some(pokes)
}

/// Pushing a draw onto the log keeps what was logged before it.
proof fn lemma_draw_log_grows(
    drawn0: Seq<Seq<i64>>,
    before: Seq<Seq<i64>>,
    after: Seq<Seq<i64>>,
    offsets: Seq<i64>,
    placed: bool,
)
    requires
        before.len() >= drawn0.len(),
        before.subrange(0, drawn0.len() as int) == drawn0,
        after == before.push(offsets),
    ensures
        after.len() == before.len() + 1,
        after.subrange(0, drawn0.len() as int) == drawn0,
        after.last() == offsets,
        forall|i: int| 0 <= i < before.len() ==> after[i] == before[i],
{
    assert(after.subrange(0, drawn0.len() as int) =~= before.subrange(0, drawn0.len() as int));
}

/// The day's random pokes: `count` offsets drawn, one per equal segment of
/// the window, drawn again until consecutive ones are the minimum spacing
/// apart, then placed with messages by the rotation rules. Each draw is
/// recorded in `source`.
pub fn generate_in_interval(
    messages: &Vec<MessageTemplate>,
    spacing_minutes: i64,
    recent_history: &Vec<crate::state::RecentMessage>,
    date: LocalDate,
    interval: &ActiveInterval,
    count: usize,
    source: &mut DrawSource,
) -> (r: Result<Vec<PendingPoke>, ScheduleError>)
    requires
        interval.wf(),
        date.in_range(),
        -MAX_SPACING_MINUTES <= spacing_minutes <= MAX_SPACING_MINUTES,
        count > 0 ==> messages@.len() > 0,
    ensures
        density_infeasible(
            count as int,
            spacing_minutes as int,
            interval.end.secs - interval.start.secs,
        ) ==> r == Err::<Vec<PendingPoke>, ScheduleError>(
            ScheduleError::Infeasible { count, spacing_minutes },
        ) && final(source).drawn@ == old(source).drawn@,
        r matches Ok(pokes) ==> random_part(
            messages@,
            recent_history@,
            date,
            *interval,
            count as int,
            spacing_minutes as int,
            pokes@,
        ),
        r matches Err(e) ==> e == (ScheduleError::Infeasible { count, spacing_minutes })
            || e == (ScheduleError::Exhausted { count, spacing_minutes }),
        r matches Err(e) ==> (e is Infeasible <==> density_infeasible(
            count as int,
            spacing_minutes as int,
            interval.end.secs - interval.start.secs,
        )),
        spacing_minutes <= 0 || count <= 1 ==> r is Ok,
        final(source).drawn@.len() >= old(source).drawn@.len(),
        final(source).drawn@.subrange(0, old(source).drawn@.len() as int) == old(source).drawn@,
        forall|i: int|
            old(source).drawn@.len() <= i < final(source).drawn@.len() && !(r is Ok && i
                == final(source).drawn@.len() - 1) ==> #[trigger] failed_draw(
                final(source).drawn@[i],
                interval.end.secs - interval.start.secs,
                count as int,
                spacing_minutes as int,
            ),
        r matches Err(ScheduleError::Exhausted { .. }) ==> final(source).drawn@.len()
            == old(source).drawn@.len() + MAX_ATTEMPTS,
        r matches Ok(pokes) ==> {
            &&& final(source).drawn@.len() > old(source).drawn@.len()
            &&& final(source).drawn@.last().len() == count
            &&& in_segments(interval.end.secs - interval.start.secs, final(source).drawn@.last())
            &&& offsets_spaced(final(source).drawn@.last(), spacing_minutes * 60)
            &&& forall|k: int|
                0 <= k < count ==> (#[trigger] pokes@[k]).at.secs == interval.start.secs
                    + final(source).drawn@.last()[k]
        },
{
    let total: i64 = interval.end.secs - interval.start.secs;
    let min_spacing: i64 = spacing_minutes * 60;
    let gaps: i128 = if count <= 1 {
        0
    } else if (count - 1) as u128 > i64::MAX as u128 {
        i64::MAX as i128
    } else {
        (count - 1) as i128
    };
    assert(gaps == gap_count_of(count as int));
    if min_spacing > 0 {
        assert((min_spacing as i128) * gaps <= 0x8000_0000_0000_0000 * 0x8000_0000_0000_0000)
            by (nonlinear_arith)
            requires
                0 < min_spacing <= 0x8000_0000_0000_0000,
                0 <= gaps <= 0x8000_0000_0000_0000,
        ;
        assert(min_spacing * gaps == spacing_minutes * 60 * gaps) by (nonlinear_arith)
            requires
                min_spacing == spacing_minutes * 60,
        ;
    }
    if min_spacing > 0 && (min_spacing as i128) * gaps >= total as i128 {
        proof {
            assert(source.drawn@.subrange(0, source.drawn@.len() as int) =~= source.drawn@);
        }
        return Err(ScheduleError::Infeasible { count, spacing_minutes });
    }
    let ghost drawn0 = source.drawn@;
    let mut attempt: usize = 0;
    proof {
        assert(source.drawn@.subrange(0, drawn0.len() as int) =~= drawn0);
    }
    while attempt < MAX_ATTEMPTS
        invariant
            interval.wf(),
            date.in_range(),
            -MAX_SPACING_MINUTES <= spacing_minutes <= MAX_SPACING_MINUTES,
            count > 0 ==> messages@.len() > 0,
            min_spacing == spacing_minutes * 60,
            !density_infeasible(
                count as int,
                spacing_minutes as int,
                interval.end.secs - interval.start.secs,
            ),
            spacing_minutes <= 0 || count <= 1 ==> attempt == 0,
            attempt <= MAX_ATTEMPTS,
            drawn0 == old(source).drawn@,
            source.drawn@.len() == drawn0.len() + attempt,
            source.drawn@.subrange(0, drawn0.len() as int) == drawn0,
            forall|i: int|
                drawn0.len() <= i < source.drawn@.len() ==> #[trigger] failed_draw(
                    source.drawn@[i],
                    interval.end.secs - interval.start.secs,
                    count as int,
                    spacing_minutes as int,
                ),
        decreases MAX_ATTEMPTS - attempt,
    {
        let ghost before = source.drawn@;
        let offsets = draw_offsets(interval, count, source);
        proof {
            if spacing_minutes <= 0 || count <= 1 {
                lemma_offsets_in_window(interval.end.secs - interval.start.secs, offsets@);
                assert forall|k: int| 0 < k < offsets@.len() implies #[trigger] offsets@[k]
                    - offsets@[k - 1] >= spacing_minutes * 60 by {
                    assert(offsets@[k - 1] <= offsets@[k]);
                }
            }
        }
        let ghost after = source.drawn@;
        let placed = place_draws(
            messages,
            spacing_minutes,
            recent_history,
            date,
            interval,
            &offsets,
            &mut source.rng,
        );
        assert(source.drawn@ == after);
        match placed {
            Some(pokes) => {
                proof {
                    lemma_draw_log_grows(drawn0, before, after, offsets@, true);
                }
                return Ok(pokes);
            },
            None => {},
        }
        proof {
            lemma_draw_log_grows(drawn0, before, after, offsets@, false);
            assert(failed_draw(
                offsets@,
                interval.end.secs - interval.start.secs,
                count as int,
                spacing_minutes as int,
            ));
            assert forall|i: int|
                drawn0.len() <= i < after.len() implies #[trigger] failed_draw(
                after[i],
                interval.end.secs - interval.start.secs,
                count as int,
                spacing_minutes as int,
            ) by {
                if i < before.len() {
                    assert(after[i] == before[i]);
                }
            }
        }
        attempt += 1;
    }
    Err(ScheduleError::Exhausted { count, spacing_minutes })
}

/// Id of the `k`-th fixed-time poke of a day: `YYYY-MM-DD-scheduled-k`.
pub open spec fn scheduled_id(date: LocalDate, k: int) -> Seq<char> {
    numbered(crate::time::date_text(date.days as int) + "-scheduled-"@, k)
}

/// A day's fixed-time pokes: one per configured item, in item order, at the
/// item's wall-clock time that day.
pub open spec fn scheduled_part(
    items: Seq<crate::config::ScheduledMessage>,
    date: LocalDate,
    pokes: Seq<PendingPoke>,
) -> bool {
    &&& pokes.len() == items.len()
    &&& forall|k: int|
        0 <= k < pokes.len() ==> {
            &&& (#[trigger] pokes[k]).kind == PokeKind::Scheduled
            &&& pokes[k].at.local_secs() == date.days * SECONDS_PER_DAY + items[k].time.seconds()
            &&& -86400 < pokes[k].at.offset < 86400
            &&& pokes[k].message@ == items[k].text@
            &&& pokes[k].category@ == items[k].category@
            &&& pokes[k].id@ == scheduled_id(date, k)
        }
}

/// The fixed-time pokes of a day.
pub fn generate_scheduled_for_date(
    items: &Vec<crate::config::ScheduledMessage>,
    date: LocalDate,
) -> (r: Result<Vec<PendingPoke>, ScheduleError>)
    requires
        date.in_range(),
    ensures
        r matches Ok(pokes) ==> scheduled_part(items@, date, pokes@),
        r matches Err(e) ==> exists|k: int|
            0 <= k < items@.len() && e == ScheduleError::NonexistentLocalTime(
                date,
                #[trigger] items@[k].time,
            ),
{
    let date_text = crate::time::format_date(date);
    proof {
        reveal_strlit("-scheduled-");
    }
    let prefix = concat(&date_text, "-scheduled-");
    let mut pokes: Vec<PendingPoke> = Vec::new();
    let mut k: usize = 0;
    while k < items.len()
        invariant
            k <= items@.len(),
            prefix@ == crate::time::date_text(date.days as int) + "-scheduled-"@,
            pokes@.len() == k,
            scheduled_part(items@.take(k as int), date, pokes@),
        decreases items@.len() - k,
    {
        let item = &items[k];
        let at = match local_datetime_at(date, item.time) {
            Ok(ts) => ts,
            Err(e) => {
                assert(items@[k as int].time == item.time);
                return Err(e);
            },
        };
        let id = numbered_text(&prefix, k as u64);
        let ghost old = pokes@;
        pokes.push(
            PendingPoke {
                id,
                at,
                message: item.text.clone(),
                category: item.category.clone(),
                kind: PokeKind::Scheduled,
            },
        );
        assert forall|j: int| 0 <= j < k + 1 implies {
            &&& (#[trigger] pokes@[j]).kind == PokeKind::Scheduled
            &&& pokes@[j].at.local_secs() == date.days * SECONDS_PER_DAY + items@.take(
                k + 1,
            )[j].time.seconds()
            &&& -86400 < pokes@[j].at.offset < 86400
            &&& pokes@[j].message@ == items@.take(k + 1)[j].text@
            &&& pokes@[j].category@ == items@.take(k + 1)[j].category@
            &&& pokes@[j].id@ == scheduled_id(date, j)
        } by {
            if j < k {
                assert(pokes@[j] == old[j]);
                assert(items@.take(k + 1)[j] == items@.take(k as int)[j]);
            }
        }
        k += 1;
    }
    assert(items@.take(items@.len() as int) =~= items@);
    Ok(pokes)
}

/// Seconds between the repeats of an interval item.
pub open spec fn step_secs(item: crate::config::IntervalMessage) -> int {
    item.every_minutes * 60
}

/// How many repeats of a step fit before the end of a window of `total`
/// seconds, the first at its start.
pub open spec fn slot_count(total: int, step: int) -> int {
    (total + step - 1) / step
}

/// Position of item `i`'s first poke: the repeats of the items before it.
pub open spec fn interval_base(items: Seq<crate::config::IntervalMessage>, total: int, i: int) -> int
    decreases i,
{
    if i <= 0 {
        0
    } else {
        interval_base(items, total, i - 1) + slot_count(total, step_secs(items[i - 1]))
    }
}

/// Id of repeat `j` of interval item `i`: `YYYY-MM-DD-interval-i-j`.
pub open spec fn interval_id(date: LocalDate, i: int, j: int) -> Seq<char> {
    numbered(
        numbered(crate::time::date_text(date.days as int) + "-interval-"@, i) + "-"@,
        j,
    )
}

/// Repeat `j` of interval item `i`.
pub open spec fn interval_poke_fits(
    p: PendingPoke,
    date: LocalDate,
    iv: ActiveInterval,
    i: int,
    j: int,
    item: crate::config::IntervalMessage,
) -> bool {
    &&& p.kind == PokeKind::Interval
    &&& p.at.secs == iv.start.secs + j * step_secs(item)
    &&& p.at.offset == iv.start.offset
    &&& p.message@ == item.text@
    &&& p.category@ == item.category@
    &&& p.id@ == interval_id(date, i, j)
}

/// A day's interval pokes: for each item in turn, one poke at the window's
/// start and then every step while before the window's end.
pub open spec fn interval_part(
    items: Seq<crate::config::IntervalMessage>,
    date: LocalDate,
    iv: ActiveInterval,
    pokes: Seq<PendingPoke>,
) -> bool {
    let total = iv.end.secs - iv.start.secs;
    &&& pokes.len() == interval_base(items, total, items.len() as int)
    &&& forall|i: int, j: int|
        0 <= i < items.len() && 0 <= j < slot_count(total, step_secs(items[i])) ==> interval_poke_fits(
            #[trigger] pokes[interval_base(items, total, i) + j],
            date,
            iv,
            i,
            j,
            items[i],
        )
    &&& forall|k: int|
        0 <= k < pokes.len() ==> (#[trigger] pokes[k]).kind == PokeKind::Interval && iv.start.secs
            <= pokes[k].at.secs < iv.end.secs && pokes[k].at.offset == iv.start.offset
}

proof fn lemma_slot_count(total: int, step: int, n: int)
    requires
        0 < total,
        0 < step,
        0 < n,
        n * step >= total,
        (n - 1) * step < total,
    ensures
        slot_count(total, step) == n,
{
    vstd::arithmetic::div_mod::lemma_fundamental_div_mod(total + step - 1, step);
    let q = (total + step - 1) / step;
    let rem = (total + step - 1) % step;
    assert(0 <= rem < step) by {
        vstd::arithmetic::div_mod::lemma_mod_bound(total + step - 1, step);
    }
    assert(q == n) by (nonlinear_arith)
        requires
            total + step - 1 == step * q + rem,
            0 <= rem < step,
            n * step >= total,
            (n - 1) * step < total,
            0 < step,
    ;
}

proof fn lemma_interval_base_monotone(items: Seq<crate::config::IntervalMessage>, total: int, i: int, j: int)
    requires
        0 <= i <= j <= items.len(),
        0 < total,
        forall|k: int| 0 <= k < items.len() ==> (#[trigger] items[k]).every_minutes > 0,
    ensures
        i < j ==> interval_base(items, total, i) + slot_count(total, step_secs(items[i]))
            <= interval_base(items, total, j),
        interval_base(items, total, i) <= interval_base(items, total, j),
    decreases j - i,
{
    if i < j {
        assert(items[j - 1].every_minutes > 0);
        lemma_slot_count_nonnegative(total, step_secs(items[j - 1]));
        lemma_interval_base_monotone(items, total, i, j - 1);
    }
}

proof fn lemma_slot_count_nonnegative(total: int, step: int)
    requires
        0 < total,
        0 < step,
    ensures
        slot_count(total, step) >= 1,
{
    vstd::arithmetic::div_mod::lemma_div_is_ordered(step, total + step - 1, step);
    vstd::arithmetic::div_mod::lemma_div_by_multiple(1, step);
}

/// The repeating pokes of a day.
pub fn generate_interval_for_date(
    items: &Vec<crate::config::IntervalMessage>,
    date: LocalDate,
    interval: &ActiveInterval,
) -> (pokes: Vec<PendingPoke>)
    requires
        interval.wf(),
        date.in_range(),
        forall|k: int| 0 <= k < items@.len() ==> (#[trigger] items@[k]).every_minutes > 0,
    ensures
        interval_part(items@, date, *interval, pokes@),
{
    let ghost total = interval.end.secs - interval.start.secs;
    let date_text = crate::time::format_date(date);
    proof {
        reveal_strlit("-interval-");
        reveal_strlit("-");
    }
    let prefix = concat(&date_text, "-interval-");
    let mut pokes: Vec<PendingPoke> = Vec::new();
    let mut i: usize = 0;
    while i < items.len()
        invariant
            interval.wf(),
            total == interval.end.secs - interval.start.secs,
            i <= items@.len(),
            forall|k: int| 0 <= k < items@.len() ==> (#[trigger] items@[k]).every_minutes > 0,
            prefix@ == crate::time::date_text(date.days as int) + "-interval-"@,
            pokes@.len() == interval_base(items@, total, i as int),
            forall|a: int, j: int|
                0 <= a < i && 0 <= j < slot_count(total, step_secs(items@[a])) ==> interval_poke_fits(
                    #[trigger] pokes@[interval_base(items@, total, a) + j],
                    date,
                    *interval,
                    a,
                    j,
                    items@[a],
                ),
            forall|k: int|
                0 <= k < pokes@.len() ==> (#[trigger] pokes@[k]).kind == PokeKind::Interval
                    && interval.start.secs <= pokes@[k].at.secs < interval.end.secs
                    && pokes@[k].at.offset == interval.start.offset,
        decreases items@.len() - i,
    {
        let item = &items[i];
        let step: i64 = item.every_minutes as i64 * 60;
        let item_prefix = numbered_text(&prefix, i as u64);
        let item_prefix = concat(&item_prefix, "-");
        let ghost base = interval_base(items@, total, i as int);
        let mut at = interval.start;
        let mut slot: u64 = 0;
        while at.secs < interval.end.secs
            invariant
                interval.wf(),
                total == interval.end.secs - interval.start.secs,
                i < items@.len(),
                forall|k: int| 0 <= k < items@.len() ==> (#[trigger] items@[k]).every_minutes > 0,
                *item == items@[i as int],
                step == step_secs(*item),
                step > 0,
                item_prefix@ == numbered(
                    crate::time::date_text(date.days as int) + "-interval-"@,
                    i as int,
                ) + "-"@,
                base == interval_base(items@, total, i as int),
                at.secs == interval.start.secs + slot * step,
                at.offset == interval.start.offset,
                slot > 0 ==> (slot - 1) * step < total,
                slot <= total,
                pokes@.len() == base + slot,
                forall|a: int, j: int|
                    0 <= a < i && 0 <= j < slot_count(total, step_secs(items@[a])) ==> interval_poke_fits(
                        #[trigger] pokes@[interval_base(items@, total, a) + j],
                        date,
                        *interval,
                        a,
                        j,
                        items@[a],
                    ),
                forall|j: int|
                    0 <= j < slot ==> interval_poke_fits(
                        #[trigger] pokes@[base + j],
                        date,
                        *interval,
                        i as int,
                        j,
                        items@[i as int],
                    ),
                forall|k: int|
                    0 <= k < pokes@.len() ==> (#[trigger] pokes@[k]).kind == PokeKind::Interval
                        && interval.start.secs <= pokes@[k].at.secs < interval.end.secs
                        && pokes@[k].at.offset == interval.start.offset,
            decreases total - slot,
        {
            let id = numbered_text(&item_prefix, slot);
            let ghost old = pokes@;
            pokes.push(
                PendingPoke {
                    id,
                    at,
                    message: item.text.clone(),
                    category: item.category.clone(),
                    kind: PokeKind::Interval,
                },
            );
            proof {
                assert forall|a: int, j: int|
                    0 <= a < i && 0 <= j < slot_count(total, step_secs(items@[a])) implies interval_poke_fits(
                    #[trigger] pokes@[interval_base(items@, total, a) + j],
                    date,
                    *interval,
                    a,
                    j,
                    items@[a],
                ) by {
                    lemma_interval_base_monotone(items@, total, a, i as int);
                    lemma_interval_base_monotone(items@, total, 0, a);
                    assert(pokes@[interval_base(items@, total, a) + j] == old[interval_base(
                        items@,
                        total,
                        a,
                    ) + j]);
                }
                assert forall|j: int| 0 <= j < slot + 1 implies interval_poke_fits(
                    #[trigger] pokes@[base + j],
                    date,
                    *interval,
                    i as int,
                    j,
                    items@[i as int],
                ) by {
                    lemma_interval_base_monotone(items@, total, 0, i as int);
                    if j < slot {
                        assert(pokes@[base + j] == old[base + j]);
                    }
                }
                assert((slot + 1) * step == slot * step + step) by (nonlinear_arith);
                assert(slot * step >= slot) by (nonlinear_arith)
                    requires
                        step > 0,
                        slot >= 0,
                ;
            }
            at = at.plus_seconds(step);
            slot += 1;
        }
        proof {
            lemma_slot_count(total, step as int, slot as int);
            assert(interval_base(items@, total, i + 1) == base + slot);
        }
        i += 1;
    }
    pokes
}

/// `e` is an error that generating the queue of `date` may end in: an hour
/// outside the clock, a wall-clock time the local zone skips (the window's
/// ends or a fixed-time item's time), no day after the last one, an empty
/// window, or a positive spacing that more than one random poke could not
/// meet.
pub open spec fn day_error(config: Config, date: LocalDate, e: ScheduleError) -> bool {
    let s = config.schedule;
    match e {
        ScheduleError::InvalidHour(h) => (h == s.start_hour && h >= 24) || (h == s.end_hour && h
            > 24),
        ScheduleError::NonexistentLocalTime(d, t) => (t.minute == 0 && t.second == 0 && (d == date
            || d.days == date.days + 1)) || (d == date && exists|k: int|
            0 <= k < config.scheduled.items@.len() && #[trigger] config.scheduled.items@[k].time
                == t),
        ScheduleError::DateOverflow(d) => d == date && s.end_hour == 24 && date.days
            >= MAX_EPOCH_DAY,
        ScheduleError::EmptyWindow(d) => d == date,
        ScheduleError::Infeasible { count, spacing_minutes } => spacing_minutes
            == s.random_min_spacing_minutes && spacing_minutes > 0 && count > 1,
        ScheduleError::Exhausted { count, spacing_minutes } => spacing_minutes
            == s.random_min_spacing_minutes && spacing_minutes > 0 && count > 1,
    }
}

/// The parts a day's queue is merged from: the window, the day's random
/// count, the random pokes, the fixed-time pokes and the interval pokes.
pub open spec fn day_parts(
    config: Config,
    recent: Seq<crate::state::RecentMessage>,
    date: LocalDate,
    iv: ActiveInterval,
    count: usize,
    random: Seq<PendingPoke>,
    scheduled: Seq<PendingPoke>,
    intervals: Seq<PendingPoke>,
) -> bool {
    let s = config.schedule;
    &&& iv.wf()
    &&& iv.start.local_secs() == date.days * SECONDS_PER_DAY + s.start_hour * 3600
    &&& iv.end.local_secs() == date.days * SECONDS_PER_DAY + s.end_hour * 3600
    &&& exists|offset: int|
        -s.random_per_day.jitter <= offset <= s.random_per_day.jitter && count == clamped_count(
            s.random_per_day.baseline_spec(date.weekday_spec()) as int,
            offset,
        )
    &&& random_part(
        config.random.items@,
        recent,
        date,
        iv,
        count as int,
        s.random_min_spacing_minutes as int,
        random,
    )
    &&& scheduled_part(config.scheduled.items@, date, scheduled)
    &&& interval_part(config.intervals.items@, date, iv, intervals)
}

/// `pokes` is the time-ordered merge of a day's parts: pokes at the same
/// instant keep the order random, fixed-time, interval, and within each
/// part their own order.
pub open spec fn day_schedule(
    config: Config,
    recent: Seq<crate::state::RecentMessage>,
    date: LocalDate,
    pokes: Seq<PendingPoke>,
) -> bool {
    &&& sorted_by_time(pokes)
    &&& exists|
        iv: ActiveInterval,
        count: usize,
        random: Seq<PendingPoke>,
        scheduled: Seq<PendingPoke>,
        intervals: Seq<PendingPoke>,
    |
        #[trigger] day_parts(config, recent, date, iv, count, random, scheduled, intervals)
            && pokes.to_multiset() == (random + scheduled + intervals).to_multiset() && forall|t: int|
            #[trigger] pokes.filter(at_instant(t)) == (random + scheduled + intervals).filter(
                at_instant(t),
            )
}

/// The configuration can be scheduled without a panic: the spacing is in
/// `chrono::Duration`'s range, every interval repeats, and the random pool
/// is not empty.
pub open spec fn schedulable(config: Config) -> bool {
    &&& -MAX_SPACING_MINUTES <= config.schedule.random_min_spacing_minutes <= MAX_SPACING_MINUTES
    &&& forall|k: int|
        0 <= k < config.intervals.items@.len() ==> (#[trigger] config.intervals.items@[k]).every_minutes
            > 0
    &&& config.random.items@.len() > 0
}

/// A day's pending queue: the day's random pokes
/// inside the window, the fixed-time pokes, and the interval pokes, merged
/// in time order.
pub fn generate_for_date(
    config: &Config,
    recent_history: &Vec<crate::state::RecentMessage>,
    date: LocalDate,
    source: &mut DrawSource,
) -> (r: Result<Vec<PendingPoke>, ScheduleError>)
    requires
        date.in_range(),
        schedulable(*config),
    ensures
        config.schedule.start_hour >= 24 ==> r == Err::<Vec<PendingPoke>, ScheduleError>(
            ScheduleError::InvalidHour(config.schedule.start_hour),
        ),
        config.schedule.end_hour > 24 ==> r is Err,
        r matches Ok(pokes) ==> day_schedule(*config, recent_history@, date, pokes@),
        r matches Err(e) ==> day_error(*config, date, e),
        r matches Err(ScheduleError::Exhausted { count, spacing_minutes }) ==> {
            &&& spacing_minutes > 0
            &&& count > 1
            &&& spacing_minutes == config.schedule.random_min_spacing_minutes
            &&& final(source).drawn@.len() == old(source).drawn@.len() + MAX_ATTEMPTS
            &&& forall|i: int|
                old(source).drawn@.len() <= i < final(source).drawn@.len() ==> (
                #[trigger] final(source).drawn@[i]).len() == count && !offsets_spaced(
                    final(source).drawn@[i],
                    spacing_minutes * 60,
                )
        },
        final(source).drawn@.len() >= old(source).drawn@.len(),
        final(source).drawn@.subrange(0, old(source).drawn@.len() as int) == old(source).drawn@,
{
    proof {
        assert(source.drawn@.subrange(0, source.drawn@.len() as int) =~= source.drawn@);
    }
    let interval = match active_interval(date, config.schedule.start_hour, config.schedule.end_hour) {
        Ok(iv) => iv,
        Err(e) => return Err(e),
    };
    let ghost drawn0 = source.drawn@;
    let count = daily_random_count(&config.schedule.random_per_day, date.weekday(), &mut source.rng);
    let mut pending = match generate_in_interval(
        &config.random.items,
        config.schedule.random_min_spacing_minutes,
        recent_history,
        date,
        &interval,
        count,
        source,
    ) {
        Ok(p) => p,
        Err(e) => {
            proof {
                assert forall|i: int|
                    drawn0.len() <= i < source.drawn@.len() implies (
                #[trigger] source.drawn@[i]).len() == count && !offsets_spaced(
                    source.drawn@[i],
                    config.schedule.random_min_spacing_minutes * 60,
                ) by {
                    assert(failed_draw(
                        source.drawn@[i],
                        interval.end.secs - interval.start.secs,
                        count as int,
                        config.schedule.random_min_spacing_minutes as int,
                    ));
                }
            }
            return Err(e);
        },
    };
    let mut scheduled = match generate_scheduled_for_date(&config.scheduled.items, date) {
        Ok(p) => p,
        Err(e) => return Err(e),
    };
    let mut intervals = generate_interval_for_date(&config.intervals.items, date, &interval);
    let ghost random_part_seq = pending@;
    let ghost scheduled_seq = scheduled@;
    let ghost interval_seq = intervals@;
    pending.append(&mut scheduled);
    pending.append(&mut intervals);
    assert(pending@ =~= random_part_seq + scheduled_seq + interval_seq);
    let merged = sort_by_time(pending);
    proof {
        assert(day_parts(
            *config,
            recent_history@,
            date,
            interval,
            count,
            random_part_seq,
            scheduled_seq,
            interval_seq,
        ));
    }
    Ok(merged)
}

/// A number written with at least two digits (`{:02}`).
pub open spec fn two_digits(n: nat) -> Seq<char> {
    if n < 10 {
        "0"@ + crate::text::decimal(n)
    } else {
        crate::text::decimal(n)
    }
}

fn two_digit_text(n: u32) -> (r: String)
    ensures
        r@ == two_digits(n as nat),
{
    let digits = crate::text::decimal_string(n as u64);
    if n < 10 {
        let mut r = String::from_str("0");
        r.append(digits.as_str());
        r
    } else {
        digits
    }
}

impl ScheduleError {
    /// The days the error mentions can be formatted.
    pub open spec fn formattable(self) -> bool {
        match self {
            ScheduleError::NonexistentLocalTime(d, _) => d.in_range(),
            ScheduleError::DateOverflow(d) => d.in_range(),
            ScheduleError::EmptyWindow(d) => d.in_range(),
            _ => true,
        }
    }

    pub open spec fn text(self) -> Seq<char> {
        let date = |d: LocalDate| crate::time::date_text(d.days as int);
        match self {
            ScheduleError::InvalidHour(h) => "invalid local hour "@ + two_digits(h as nat) + ":00"@,
            ScheduleError::NonexistentLocalTime(d, t) => "local time "@ + date(d) + " "@ + two_digits(
                t.hour as nat,
            ) + ":"@ + two_digits(t.minute as nat) + " does not exist"@,
            ScheduleError::DateOverflow(d) => "failed to advance date "@ + date(d),
            ScheduleError::EmptyWindow(d) => "active window end must be after start for "@ + date(d),
            ScheduleError::Infeasible { count, spacing_minutes } => "schedule density is infeasible: window is too small for "@
                + crate::text::decimal(count as nat) + " pokes with "@ + crate::text::signed_decimal(
                spacing_minutes as int,
            ) + " minutes minimum spacing"@,
            ScheduleError::Exhausted { count, spacing_minutes } => "schedule density is infeasible after 1000 attempts: window is too small for "@
                + crate::text::decimal(count as nat) + " pokes with "@ + crate::text::signed_decimal(
                spacing_minutes as int,
            ) + " minutes minimum spacing"@,
        }
    }

    pub fn message(&self) -> (r: String)
        requires
            self.formattable(),
        ensures
            r@ == self.text(),
    {
        match self {
            ScheduleError::InvalidHour(h) => {
                let mut r = String::from_str("invalid local hour ");
                let hh = two_digit_text(*h);
                r.append(hh.as_str());
                r.append(":00");
                r
            },
            ScheduleError::NonexistentLocalTime(d, t) => {
                let mut r = String::from_str("local time ");
                let day = crate::time::format_date(*d);
                r.append(day.as_str());
                r.append(" ");
                let hh = two_digit_text(t.hour);
                r.append(hh.as_str());
                r.append(":");
                let mm = two_digit_text(t.minute);
                r.append(mm.as_str());
                r.append(" does not exist");
                r
            },
            ScheduleError::DateOverflow(d) => {
                let mut r = String::from_str("failed to advance date ");
                let day = crate::time::format_date(*d);
                r.append(day.as_str());
                r
            },
            ScheduleError::EmptyWindow(d) => {
                let mut r = String::from_str("active window end must be after start for ");
                let day = crate::time::format_date(*d);
                r.append(day.as_str());
                r
            },
            ScheduleError::Infeasible { count, spacing_minutes } => {
                let mut r = String::from_str(
                    "schedule density is infeasible: window is too small for ",
                );
                let c = crate::text::decimal_string(*count as u64);
                r.append(c.as_str());
                r.append(" pokes with ");
                let m = crate::text::signed_decimal_string(*spacing_minutes);
                r.append(m.as_str());
                r.append(" minutes minimum spacing");
                r
            },
            ScheduleError::Exhausted { count, spacing_minutes } => {
                let mut r = String::from_str(
                    "schedule density is infeasible after 1000 attempts: window is too small for ",
                );
                let c = crate::text::decimal_string(*count as u64);
                r.append(c.as_str());
                r.append(" pokes with ");
                let m = crate::text::signed_decimal_string(*spacing_minutes);
                r.append(m.as_str());
                r.append(" minutes minimum spacing");
                r
            },
        }
    }
}

/// Some random poke of the queue carries message `m`.
pub open spec fn sent_as_random(pokes: Seq<PendingPoke>, m: MessageTemplate) -> bool {
    exists|j: int|
        0 <= j < pokes.len() && (#[trigger] pokes[j]).kind == PokeKind::Random && pokes[j].message@
            == m.text@ && pokes[j].category@ == m.category@
}

/// A poke is one of the day's random pokes.
pub open spec fn random_kind() -> spec_fn(PendingPoke) -> bool {
    |p: PendingPoke| p.kind == PokeKind::Random
}

/// The day's random count as the queue shows it: how many of its pokes are
/// random ones.
pub open spec fn random_count(pokes: Seq<PendingPoke>) -> nat {
    pokes.filter(random_kind()).len()
}

/// Filtering a sequence and then counting its elements gives the same
/// multiset as filtering its multiset.
proof fn lemma_filter_multiset(s: Seq<PendingPoke>, f: spec_fn(PendingPoke) -> bool)
    ensures
        s.filter(f).to_multiset() =~= s.to_multiset().filter(f),
    decreases s.len(),
{
    broadcast use vstd::seq_lib::group_to_multiset_ensures, vstd::multiset::group_multiset_axioms;

    if s.len() == 0 {
        reveal(Seq::filter);
        assert(s.to_multiset() =~= vstd::multiset::Multiset::empty());
        assert(s.filter(f).to_multiset() =~= vstd::multiset::Multiset::empty());
    } else {
        let t = s.drop_last();
        let x = s.last();
        lemma_filter_multiset(t, f);
        assert(t.push(x) =~= s);
        t.lemma_filter_push(x, f);
        assert(s.to_multiset() =~= t.to_multiset().insert(x));
    }
}

/// The queue of a day holds exactly its random part's pokes as random ones,
/// so the random count it shows is the day's random count.
proof fn lemma_random_count_of_parts(
    pokes: Seq<PendingPoke>,
    random: Seq<PendingPoke>,
    scheduled: Seq<PendingPoke>,
    intervals: Seq<PendingPoke>,
)
    requires
        pokes.to_multiset() == (random + scheduled + intervals).to_multiset(),
        forall|k: int| 0 <= k < random.len() ==> (#[trigger] random[k]).kind == PokeKind::Random,
        forall|k: int|
            0 <= k < scheduled.len() ==> (#[trigger] scheduled[k]).kind == PokeKind::Scheduled,
        forall|k: int|
            0 <= k < intervals.len() ==> (#[trigger] intervals[k]).kind == PokeKind::Interval,
    ensures
        random_count(pokes) == random.len(),
{
    broadcast use vstd::seq_lib::group_to_multiset_ensures;

    let f = random_kind();
    let all = random + scheduled + intervals;
    lemma_filter_multiset(pokes, f);
    lemma_filter_multiset(all, f);
    assert(pokes.filter(f).len() == all.filter(f).len()) by {
        assert(pokes.filter(f).to_multiset().len() == all.filter(f).to_multiset().len());
    }
    Seq::filter_distributes_over_add(random + scheduled, intervals, f);
    Seq::filter_distributes_over_add(random, scheduled, f);
    assert(scheduled.all(|x: PendingPoke| !f(x)));
    scheduled.lemma_all_neg_filter_empty(f);
    assert(intervals.all(|x: PendingPoke| !f(x)));
    intervals.lemma_all_neg_filter_empty(f);
    lemma_filter_keeps_all(random, f);
}

/// Filtering by a predicate every element meets keeps the whole sequence.
proof fn lemma_filter_keeps_all(s: Seq<PendingPoke>, f: spec_fn(PendingPoke) -> bool)
    requires
        forall|k: int| 0 <= k < s.len() ==> f(#[trigger] s[k]),
    ensures
        s.filter(f) == s,
    decreases s.len(),
{
    reveal(Seq::filter);
    if s.len() > 0 {
        let t = s.drop_last();
        assert forall|k: int| 0 <= k < t.len() implies f(#[trigger] t[k]) by {
            assert(t[k] == s[k]);
        }
        lemma_filter_keeps_all(t, f);
        assert(f(s[s.len() - 1]));
        assert(t.push(s.last()) =~= s);
    }
}

/// A day's queue holds as many random pokes as the day's random count: the
/// weekday's baseline plus an offset within the jitter, kept at least one.
/// Fixed-time and interval pokes do not count toward it.
pub proof fn lemma_random_count_of_day(
    config: Config,
    recent: Seq<crate::state::RecentMessage>,
    date: LocalDate,
    pokes: Seq<PendingPoke>,
)
    requires
        day_schedule(config, recent, date, pokes),
    ensures
        exists|offset: int|
            -config.schedule.random_per_day.jitter <= offset <= config.schedule.random_per_day.jitter
                && random_count(pokes) == #[trigger] clamped_count(
                config.schedule.random_per_day.baseline_spec(date.weekday_spec()) as int,
                offset,
            ),
{
    let msgs = config.random.items@;
    let (iv, count, r, sp, ip) = choose|
        iv: ActiveInterval,
        count: usize,
        r: Seq<PendingPoke>,
        sp: Seq<PendingPoke>,
        ip: Seq<PendingPoke>,
    |
        #[trigger] day_parts(config, recent, date, iv, count, r, sp, ip) && pokes.to_multiset() == (r
            + sp + ip).to_multiset();
    let picked = choose|picked: Seq<usize>| #[trigger] random_picks_fit(msgs, recent, date, iv, r, picked);
    assert forall|k: int| 0 <= k < r.len() implies (#[trigger] r[k]).kind == PokeKind::Random by {
        assert(random_poke_fits(r[k], date, iv, k, msgs[picked[k] as int]));
    }
    lemma_random_count_of_parts(pokes, r, sp, ip);
}

/// When the day's random count is at least the number of configured random
/// messages, each configured message goes out as a random poke of the day
/// at least once.
pub proof fn lemma_every_message_appears(
    config: Config,
    recent: Seq<crate::state::RecentMessage>,
    date: LocalDate,
    pokes: Seq<PendingPoke>,
)
    requires
        day_schedule(config, recent, date, pokes),
        random_count(pokes) >= config.random.items@.len(),
    ensures
        forall|m: int|
            0 <= m < config.random.items@.len() ==> #[trigger] sent_as_random(
                pokes,
                config.random.items@[m],
            ),
{
    let msgs = config.random.items@;
    let (iv, count, r, sp, ip) = choose|
        iv: ActiveInterval,
        count: usize,
        r: Seq<PendingPoke>,
        sp: Seq<PendingPoke>,
        ip: Seq<PendingPoke>,
    |
        #[trigger] day_parts(config, recent, date, iv, count, r, sp, ip) && pokes.to_multiset() == (r
            + sp + ip).to_multiset();
    let picked = choose|picked: Seq<usize>| #[trigger] random_picks_fit(msgs, recent, date, iv, r, picked);
    assert forall|k: int| 0 <= k < r.len() implies (#[trigger] r[k]).kind == PokeKind::Random by {
        assert(random_poke_fits(r[k], date, iv, k, msgs[picked[k] as int]));
    }
    lemma_random_count_of_parts(pokes, r, sp, ip);
    assert(msgs.len() <= count);
    assert forall|m: int| 0 <= m < msgs.len() implies #[trigger] sent_as_random(pokes, msgs[m]) by {
        assert(picked.contains(m as usize));
        let k = choose|k: int| 0 <= k < picked.len() && picked[k] == m as usize;
        assert(random_poke_fits(r[k], date, iv, k, msgs[picked[k] as int]));
        let all = r + sp + ip;
        assert(all[k] == r[k]);
        assert(all.contains(r[k]));
        vstd::seq_lib::to_multiset_contains(all, r[k]);
        vstd::seq_lib::to_multiset_contains(pokes, r[k]);
        let j = choose|j: int| 0 <= j < pokes.len() && pokes[j] == r[k];
        assert(pokes[j] == r[k]);
    }
}

} // verus!
