//! One tick: regenerate the day's queue on a new day, then send at most the
//! earliest due poke and drop the other missed ones.

use vstd::prelude::*;

use crate::config::Config;
use crate::delivery::{DeliveryOutput, RecordingSender, SendError, Sender};
use crate::schedule::{day_error, day_schedule, generate_for_date, is_within_active_window, schedulable, ScheduleError};
use crate::state::{PendingPoke, PokeKind, RecentMessage, SentPoke, State};
use crate::time::{date_text, datetime_text, format_date, format_datetime, LocalDate, Timestamp};
use crate::paths::PokePaths;
use vstd::string::*;

verus! {

/// How many successful random sends the rotation remembers across days.
pub const RECENT_HISTORY_LIMIT: usize = 8;

/// What a tick did.
#[derive(Clone, Copy, Debug, PartialEq, Eq, Structural)]
pub struct TickOutcome {
    pub state_changed: bool,
    pub sent_message: bool,
}

/// Why a tick failed.
#[derive(Debug)]
pub enum TickError {
    /// Today's schedule could not be generated.
    Schedule(ScheduleError),
    /// The sender could not be run.
    Send(SendError),
    /// The sender ran and reported failure; its output is kept for the log.
    DeliveryFailed(DeliveryOutput),
}

/// The last `limit` entries of `h`, or all of them when there are fewer.
pub open spec fn keep_last(h: Seq<RecentMessage>, limit: int) -> Seq<RecentMessage> {
    if h.len() > limit {
        h.subrange(h.len() - limit, h.len() as int)
    } else {
        h
    }
}

/// Appends a successful send to the history and keeps only the newest
/// `RECENT_HISTORY_LIMIT` entries.
pub fn record_recent_send(history: &mut Vec<RecentMessage>, sent: RecentMessage)
    ensures
        final(history)@ == keep_last(old(history)@.push(sent), RECENT_HISTORY_LIMIT as int),
        final(history)@.len() <= RECENT_HISTORY_LIMIT,
{
    history.push(sent);
    if history.len() > RECENT_HISTORY_LIMIT {
        let excess = history.len() - RECENT_HISTORY_LIMIT;
        let ghost full = history@;
        let mut removed: usize = 0;
        while removed < excess
            invariant
                removed <= excess,
                excess == full.len() - RECENT_HISTORY_LIMIT,
                history@ == full.subrange(removed as int, full.len() as int),
            decreases excess - removed,
        {
            history.remove(0);
            assert(history@ =~= full.subrange(removed + 1, full.len() as int));
            removed += 1;
        }
    }
}

/// A poke may go out now: its time has come, and it is a fixed-time poke or
/// the window is open.
pub open spec fn due(p: PendingPoke, now: Timestamp, within_active_window: bool) -> bool {
    p.at.secs <= now.secs && (p.kind == PokeKind::Scheduled || within_active_window)
}

/// `k` is the first due poke of the queue.
pub open spec fn first_due(pending: Seq<PendingPoke>, now: Timestamp, within: bool, k: int) -> bool {
    &&& 0 <= k < pending.len()
    &&& due(pending[k], now, within)
    &&& forall|j: int| 0 <= j < k ==> !due(#[trigger] pending[j], now, within)
}

/// No poke of the queue is due.
pub open spec fn none_due(pending: Seq<PendingPoke>, now: Timestamp, within: bool) -> bool {
    forall|j: int| 0 <= j < pending.len() ==> !due(#[trigger] pending[j], now, within)
}

/// Position of the first due poke.
fn earliest_due(pending: &Vec<PendingPoke>, now: Timestamp, within_active_window: bool) -> (r: Option<
    usize,
>)
    ensures
        r matches Some(k) ==> first_due(pending@, now, within_active_window, k as int),
        r is None ==> none_due(pending@, now, within_active_window),
{
    let mut k: usize = 0;
    while k < pending.len()
        invariant
            k <= pending@.len(),
            forall|j: int| 0 <= j < k ==> !due(#[trigger] pending@[j], now, within_active_window),
        decreases pending@.len() - k,
    {
        let p = &pending[k];
        let is_scheduled = match p.kind {
            PokeKind::Scheduled => true,
            _ => false,
        };
        if p.at.secs <= now.secs && (is_scheduled || within_active_window) {
            return Some(k);
        }
        k += 1;
    }
    None
}

/// The pokes of `pending` still in the future of `now`, in order.
pub open spec fn still_future(pending: Seq<PendingPoke>, now: Timestamp) -> Seq<PendingPoke>
    decreases pending.len(),
{
    if pending.len() == 0 {
        pending
    } else {
        let rest = still_future(pending.drop_last(), now);
        if pending.last().at.secs > now.secs {
            rest.push(pending.last())
        } else {
            rest
        }
    }
}

/// Keeps only the pokes after `now`.
fn retain_future(pending: &mut Vec<PendingPoke>, now: Timestamp)
    ensures
        final(pending)@ == still_future(old(pending)@, now),
{
    let mut input: Vec<PendingPoke> = Vec::new();
    std::mem::swap(&mut input, pending);
    let ghost initial = input@;
    let total: usize = input.len();
    assert(initial.len() == total);
    let mut kept: Vec<PendingPoke> = Vec::new();
    let mut taken: Vec<PendingPoke> = Vec::new();
    // Reverse, so the pokes can be moved out front to back.
    while input.len() > 0
        invariant
            input@ == initial.take(input@.len() as int),
            taken@.len() + input@.len() == initial.len(),
            forall|k: int|
                0 <= k < taken@.len() ==> #[trigger] taken@[k] == initial[initial.len() - 1 - k],
        decreases input@.len(),
    {
        let p = input.pop().unwrap();
        taken.push(p);
        assert(input@ =~= initial.take(input@.len() as int));
    }
    let mut i: usize = 0;
    while taken.len() > 0
        invariant
            initial.len() <= usize::MAX,
            i + taken@.len() == initial.len(),
            forall|k: int|
                0 <= k < taken@.len() ==> #[trigger] taken@[k] == initial[initial.len() - 1 - k],
            kept@ == still_future(initial.take(i as int), now),
        decreases taken@.len(),
    {
        let p = taken.pop().unwrap();
        assert(p == initial[i as int]);
        assert(initial.take(i + 1).drop_last() =~= initial.take(i as int));
        assert(initial.take(i + 1).last() == initial[i as int]);
        if p.at.secs > now.secs {
            kept.push(p);
        }
        i += 1;
    }
    assert(initial.take(initial.len() as int) =~= initial);
    *pending = kept;
}

/// The record of a sent poke.
pub open spec fn sent_record(s: SentPoke, p: PendingPoke, now: Timestamp) -> bool {
    &&& s.id == p.id
    &&& s.scheduled_at == p.at
    &&& s.sent_at == now
    &&& s.message == p.message
    &&& s.category == p.category
    &&& s.kind == p.kind
}

/// The history entry of a sent poke.
pub open spec fn recent_record(e: RecentMessage, p: PendingPoke) -> bool {
    e.message == p.message && e.category == p.category
}

/// The send step with the first due poke at `k`: either the sender could
/// not deliver it and nothing changes, or it was delivered, moved to the
/// sent list, recorded in the history when random, and the other missed
/// pokes were dropped.
pub open spec fn step_with(
    k: int,
    now: Timestamp,
    p0: Seq<PendingPoke>,
    s0: Seq<SentPoke>,
    h0: Seq<RecentMessage>,
    p1: Seq<PendingPoke>,
    s1: Seq<SentPoke>,
    h1: Seq<RecentMessage>,
    result: Result<TickOutcome, TickError>,
) -> bool {
    ||| {
        &&& result is Err
        &&& (result->Err_0 is Send || result->Err_0 is DeliveryFailed)
        &&& p1 == p0
        &&& s1 == s0
        &&& h1 == h0
    }
    ||| {
        &&& result == Ok::<TickOutcome, TickError>(
            TickOutcome { state_changed: true, sent_message: true },
        )
        &&& p1 == still_future(p0.remove(k), now)
        &&& s1.len() == s0.len() + 1
        &&& s1.drop_last() == s0
        &&& sent_record(s1.last(), p0[k], now)
        &&& if p0[k].kind == PokeKind::Random {
            &&& h1.len() > 0
            &&& recent_record(h1.last(), p0[k])
            &&& h1 == keep_last(h0.push(h1.last()), RECENT_HISTORY_LIMIT as int)
        } else {
            h1 == h0
        }
    }
}

/// What the send step of a tick does, from the queue, sent list and history
/// it starts with (`p0`, `s0`, `h0`) to those it leaves (`p1`, `s1`, `h1`),
/// with `changed` telling whether the day's queue was regenerated first.
pub open spec fn send_step(
    now: Timestamp,
    within: bool,
    changed: bool,
    p0: Seq<PendingPoke>,
    s0: Seq<SentPoke>,
    h0: Seq<RecentMessage>,
    p1: Seq<PendingPoke>,
    s1: Seq<SentPoke>,
    h1: Seq<RecentMessage>,
    result: Result<TickOutcome, TickError>,
) -> bool {
    if none_due(p0, now, within) {
        &&& result == Ok::<TickOutcome, TickError>(
            TickOutcome { state_changed: changed, sent_message: false },
        )
        &&& p1 == p0
        &&& s1 == s0
        &&& h1 == h0
    } else {
        exists|k: int|
            #[trigger] first_due(p0, now, within, k) && step_with(k, now, p0, s0, h0, p1, s1, h1, result)
    }
}

/// Today's local date differs from the day the queue was generated for.
pub open spec fn new_day(state: State, now: Timestamp) -> bool {
    match state.last_schedule_date {
        Some(d) => d.days != now.local_day(),
        None => true,
    }
}

/// The sender's answer is a delivery: it ran and exited with status 0.
pub open spec fn delivered(reply: Result<DeliveryOutput, SendError>) -> bool {
    reply matches Ok(d) && d.status_code == Some(0i32)
}

/// The error a tick reports for an answer that is not a delivery.
pub open spec fn failure_of(reply: Result<DeliveryOutput, SendError>) -> TickError {
    match reply {
        Ok(d) => TickError::DeliveryFailed(d),
        Err(e) => TickError::Send(e),
    }
}

/// The send step with the first due poke at `k` and the sender's answer
/// `reply`: after a delivery the poke moves to the sent list, is recorded in
/// the history when random, and the other missed pokes are dropped; after
/// any other answer the tick reports it and nothing changes.
pub open spec fn reply_step(
    k: int,
    now: Timestamp,
    p0: Seq<PendingPoke>,
    s0: Seq<SentPoke>,
    h0: Seq<RecentMessage>,
    p1: Seq<PendingPoke>,
    s1: Seq<SentPoke>,
    h1: Seq<RecentMessage>,
    result: Result<TickOutcome, TickError>,
    reply: Result<DeliveryOutput, SendError>,
) -> bool {
    if delivered(reply) {
        &&& result == Ok::<TickOutcome, TickError>(
            TickOutcome { state_changed: true, sent_message: true },
        )
        &&& p1 == still_future(p0.remove(k), now)
        &&& s1.len() == s0.len() + 1
        &&& s1.drop_last() == s0
        &&& sent_record(s1.last(), p0[k], now)
        &&& if p0[k].kind == PokeKind::Random {
            &&& h1.len() > 0
            &&& recent_record(h1.last(), p0[k])
            &&& h1 == keep_last(h0.push(h1.last()), RECENT_HISTORY_LIMIT as int)
        } else {
            h1 == h0
        }
    } else {
        &&& result == Err::<TickOutcome, TickError>(failure_of(reply))
        &&& p1 == p0
        &&& s1 == s0
        &&& h1 == h0
    }
}

/// What the sender sees of a tick's send step, from the messages handed and
/// answers given before it (`m0`, `q0`) to those after it (`m1`, `q1`):
/// nothing when no poke is due, and then nothing changes; otherwise exactly
/// the first due poke's message, one answer, and the step that answer calls
/// for.
pub open spec fn tick_sends(
    now: Timestamp,
    within: bool,
    p0: Seq<PendingPoke>,
    s0: Seq<SentPoke>,
    h0: Seq<RecentMessage>,
    p1: Seq<PendingPoke>,
    s1: Seq<SentPoke>,
    h1: Seq<RecentMessage>,
    result: Result<TickOutcome, TickError>,
    m0: Seq<Seq<char>>,
    m1: Seq<Seq<char>>,
    q0: Seq<Result<DeliveryOutput, SendError>>,
    q1: Seq<Result<DeliveryOutput, SendError>>,
) -> bool {
    if none_due(p0, now, within) {
        &&& m1 == m0
        &&& q1 == q0
        &&& result matches Ok(o) && !o.sent_message
        &&& p1 == p0
        &&& s1 == s0
        &&& h1 == h0
    } else {
        exists|k: int|
            #[trigger] first_due(p0, now, within, k) && m1 == m0.push(p0[k].message@) && q1.len()
                == q0.len() + 1 && q1.drop_last() == q0 && reply_step(
                k,
                now,
                p0,
                s0,
                h0,
                p1,
                s1,
                h1,
                result,
                q1.last(),
            )
    }
}

/// Applies the sender's answer for the due poke at `k`: a delivery moves it
/// to the sent list, drops the other missed pokes and, for a random poke,
/// records it in the history; any other answer is reported and leaves the
/// state as it was.
pub fn finish_send(
    state: &mut State,
    k: usize,
    now: Timestamp,
    delivery: Result<DeliveryOutput, SendError>,
) -> (r: Result<TickOutcome, TickError>)
    requires
        k < old(state).pending@.len(),
    ensures
        reply_step(
            k as int,
            now,
            old(state).pending@,
            old(state).sent@,
            old(state).recent_history@,
            final(state).pending@,
            final(state).sent@,
            final(state).recent_history@,
            r,
            delivery,
        ),
        final(state).last_schedule_date == old(state).last_schedule_date,
{
    let ghost s0 = state.sent@;
    let d = match delivery {
        Ok(d) => d,
        Err(e) => return Err(TickError::Send(e)),
    };
    let succeeded = match d.status_code {
        Some(code) => code == 0,
        None => false,
    };
    if !succeeded {
        return Err(TickError::DeliveryFailed(d));
    }
    let sent_poke = state.pending.remove(k);
    retain_future(&mut state.pending, now);
    let recent_message = RecentMessage {
        message: sent_poke.message.clone(),
        category: sent_poke.category.clone(),
    };
    let is_random = match sent_poke.kind {
        PokeKind::Random => true,
        _ => false,
    };
    state.sent.push(
        SentPoke {
            id: sent_poke.id,
            scheduled_at: sent_poke.at,
            sent_at: now,
            message: sent_poke.message,
            category: sent_poke.category,
            kind: sent_poke.kind,
        },
    );
    if is_random {
        record_recent_send(&mut state.recent_history, recent_message);
    }
    proof {
        assert(state.sent@.drop_last() =~= s0);
    }
    Ok(TickOutcome { state_changed: true, sent_message: true })
}

/// Puts a freshly generated day into the state, or reports why generating
/// it failed and leaves the state as it was.
pub fn apply_schedule(
    state: &mut State,
    today: LocalDate,
    generated: Result<Vec<PendingPoke>, ScheduleError>,
) -> (r: Result<(), TickError>)
    ensures
        match generated {
            Ok(p) => {
                &&& r is Ok
                &&& final(state).last_schedule_date == Some(today)
                &&& final(state).pending@ == p@
                &&& final(state).sent@.len() == 0
                &&& final(state).recent_history == old(state).recent_history
            },
            Err(e) => r == Err::<(), TickError>(TickError::Schedule(e)) && *final(state) == *old(
                state,
            ),
        },
{
    let pending = match generated {
        Ok(p) => p,
        Err(e) => return Err(TickError::Schedule(e)),
    };
    state.last_schedule_date = Some(today);
    state.pending = pending;
    state.sent.clear();
    Ok(())
}

/// Replaces the queue with a fresh schedule for today and clears today's
/// sends; the recent history is kept.
pub fn regenerate_today(config: &Config, state: &mut State, now: Timestamp) -> (r: Result<(), TickError>)
    requires
        now.wf(),
        schedulable(*config),
    ensures
        r is Ok ==> {
            &&& final(state).last_schedule_date == Some(LocalDate { days: now.local_day() as i32 })
            &&& day_schedule(*config, old(state).recent_history@, final(state).last_schedule_date->0, final(state).pending@)
            &&& final(state).sent@.len() == 0
            &&& final(state).recent_history == old(state).recent_history
        },
        r matches Err(e) ==> e is Schedule && *final(state) == *old(state),
        config.schedule.start_hour >= 24 ==> r == Err::<(), TickError>(
            TickError::Schedule(ScheduleError::InvalidHour(config.schedule.start_hour)),
        ),
        config.schedule.end_hour > 24 ==> r is Err,
        r matches Err(TickError::Schedule(ScheduleError::Exhausted { count, spacing_minutes }))
            ==> spacing_minutes > 0 && count > 1,
        r matches Err(TickError::Schedule(e)) ==> day_error(
            *config,
            LocalDate { days: now.local_day() as i32 },
            e,
        ),
{
    let mut source = crate::rng::DrawSource::new(crate::rng::entropy_rng());
    let today = now.date_naive();
    let generated = generate_for_date(config, &state.recent_history, today, &mut source);
    apply_schedule(state, today, generated)
}

/// One tick: on a new local day the queue is regenerated;
/// then the first due poke, if any, is handed to the sender. Only after a
/// delivery is it moved to the sent list, the other missed pokes are
/// dropped, and, for a random poke, the send is recorded in the history;
/// any other answer is reported and the queue is kept.
pub fn process_tick<S: Sender>(
    config: &Config,
    state: &mut State,
    now: Timestamp,
    sender: &mut RecordingSender<S>,
) -> (r: Result<TickOutcome, TickError>)
    requires
        now.wf(),
        new_day(*old(state), now) ==> schedulable(*config),
    ensures
        !new_day(*old(state), now) ==> send_step(
            now,
            config.schedule.start_hour <= now.local_hour() < config.schedule.end_hour,
            false,
            old(state).pending@,
            old(state).sent@,
            old(state).recent_history@,
            final(state).pending@,
            final(state).sent@,
            final(state).recent_history@,
            r,
        ) && tick_sends(
            now,
            config.schedule.start_hour <= now.local_hour() < config.schedule.end_hour,
            old(state).pending@,
            old(state).sent@,
            old(state).recent_history@,
            final(state).pending@,
            final(state).sent@,
            final(state).recent_history@,
            r,
            old(sender).handed@,
            final(sender).handed@,
            old(sender).replies@,
            final(sender).replies@,
        ) && final(state).last_schedule_date == old(state).last_schedule_date,
        old(state).last_schedule_date == Some(LocalDate { days: now.local_day() as i32 })
            ==> final(state).last_schedule_date == old(state).last_schedule_date && send_step(
            now,
            config.schedule.start_hour <= now.local_hour() < config.schedule.end_hour,
            false,
            old(state).pending@,
            old(state).sent@,
            old(state).recent_history@,
            final(state).pending@,
            final(state).sent@,
            final(state).recent_history@,
            r,
        ),
        old(state).last_schedule_date == Some(LocalDate { days: now.local_day() as i32 }) && old(
            state,
        ).pending@.len() == 0 ==> {
            &&& r == Ok::<TickOutcome, TickError>(
                TickOutcome { state_changed: false, sent_message: false },
            )
            &&& final(state).last_schedule_date == old(state).last_schedule_date
            &&& final(state).pending@ == old(state).pending@
            &&& final(state).sent@ == old(state).sent@
            &&& final(state).recent_history@ == old(state).recent_history@
            &&& final(sender).handed@ == old(sender).handed@
            &&& final(sender).replies@ == old(sender).replies@
        },
        new_day(*old(state), now) ==> {
            ||| (r matches Err(TickError::Schedule(e)) && day_error(
                *config,
                LocalDate { days: now.local_day() as i32 },
                e,
            ) && *final(state) == *old(state) && final(sender).handed@ == old(sender).handed@
                && final(sender).replies@ == old(sender).replies@)
            ||| exists|generated: Seq<PendingPoke>|
                #[trigger] day_schedule(
                    *config,
                    old(state).recent_history@,
                    LocalDate { days: now.local_day() as i32 },
                    generated,
                ) && final(state).last_schedule_date == Some(LocalDate { days: now.local_day() as i32 })
                    && send_step(
                    now,
                    config.schedule.start_hour <= now.local_hour() < config.schedule.end_hour,
                    true,
                    generated,
                    Seq::empty(),
                    old(state).recent_history@,
                    final(state).pending@,
                    final(state).sent@,
                    final(state).recent_history@,
                    r,
                ) && tick_sends(
                    now,
                    config.schedule.start_hour <= now.local_hour() < config.schedule.end_hour,
                    generated,
                    Seq::empty(),
                    old(state).recent_history@,
                    final(state).pending@,
                    final(state).sent@,
                    final(state).recent_history@,
                    r,
                    old(sender).handed@,
                    final(sender).handed@,
                    old(sender).replies@,
                    final(sender).replies@,
                )
        },
{
    let mut state_changed = false;
    let ghost old_history = state.recent_history@;
    let today = now.date_naive();
    let is_new_day = match state.last_schedule_date {
        Some(d) => d.days != today.days,
        None => true,
    };
    if is_new_day {
        match regenerate_today(config, state, now) {
            Ok(()) => {},
            Err(e) => return Err(e),
        }
        state_changed = true;
        assert(day_schedule(*config, old_history, today, state.pending@));
        assert(state.sent@ =~= Seq::<SentPoke>::empty());
    }
    let ghost p0 = state.pending@;
    let within_active_window = is_within_active_window(
        now,
        config.schedule.start_hour,
        config.schedule.end_hour,
    );
    let due_index = match earliest_due(&state.pending, now, within_active_window) {
        Some(k) => k,
        None => {
            return Ok(TickOutcome { state_changed, sent_message: false });
        },
    };
    assert(first_due(p0, now, within_active_window, due_index as int));
    let ghost s0 = state.sent@;
    let ghost h0 = state.recent_history@;
    let ghost q0 = sender.replies@;
    let delivery = sender.send(state.pending[due_index].message.as_str());
    let ghost reply = delivery;
    let r = finish_send(state, due_index, now, delivery);
    proof {
        assert(sender.replies@.drop_last() =~= q0);
        assert(sender.replies@.last() == reply);
        lemma_reply_step_is_step(
            due_index as int,
            now,
            p0,
            s0,
            h0,
            state.pending@,
            state.sent@,
            state.recent_history@,
            r,
            reply,
        );
        assert(step_with(
            due_index as int,
            now,
            p0,
            s0,
            h0,
            state.pending@,
            state.sent@,
            state.recent_history@,
            r,
        ));
    }
    r
}

/// A send step fixed by the sender's answer is one of the two outcomes a
/// send step may have.
proof fn lemma_reply_step_is_step(
    k: int,
    now: Timestamp,
    p0: Seq<PendingPoke>,
    s0: Seq<SentPoke>,
    h0: Seq<RecentMessage>,
    p1: Seq<PendingPoke>,
    s1: Seq<SentPoke>,
    h1: Seq<RecentMessage>,
    result: Result<TickOutcome, TickError>,
    reply: Result<DeliveryOutput, SendError>,
)
    requires
        reply_step(k, now, p0, s0, h0, p1, s1, h1, result, reply),
    ensures
        step_with(k, now, p0, s0, h0, p1, s1, h1, result),
{
}

/// `{:?}` of the schedule date: `Some(2026-04-19)` or `None`.
pub open spec fn debug_date(d: Option<LocalDate>) -> Seq<char> {
    match d {
        Some(d) => "Some("@ + date_text(d.days as int) + ")"@,
        None => "None"@,
    }
}

/// One line of the pending listing.
pub open spec fn pending_line(p: PendingPoke) -> Seq<char> {
    "  "@ + p.id@ + " "@ + datetime_text(p.at.secs as int, p.at.offset as int) + " "@ + p.kind.text()
        + " ["@ + p.category@ + "] "@ + p.message@ + "\n"@
}

pub open spec fn pending_lines(pending: Seq<PendingPoke>) -> Seq<char>
    decreases pending.len(),
{
    if pending.len() == 0 {
        Seq::empty()
    } else {
        pending_lines(pending.drop_last()) + pending_line(pending.last())
    }
}

/// The line about the last send, or `  none`.
pub open spec fn last_sent_line(sent: Seq<SentPoke>) -> Seq<char> {
    if sent.len() == 0 {
        "  none\n"@
    } else {
        let s = sent.last();
        "  "@ + s.id@ + " scheduled="@ + datetime_text(s.scheduled_at.secs as int, s.scheduled_at.offset as int)
            + " sent="@ + datetime_text(s.sent_at.secs as int, s.sent_at.offset as int) + " "@
            + s.kind.text() + " ["@ + s.category@ + "] "@ + s.message@ + "\n"@
    }
}

/// What `show` prints: the paths, the schedule date, the pending queue and
/// the last send.
pub open spec fn show_text(paths: PokePaths, state: State) -> Seq<char> {
    "config: "@ + paths.config_file@ + "\n"@ + "state: "@ + paths.state_file@ + "\n"@ + "logs: "@
        + paths.log_dir@ + "\n"@ + "last_schedule_date: "@ + debug_date(state.last_schedule_date)
        + "\n"@ + "pending:\n"@ + pending_lines(state.pending@) + "last_sent:\n"@ + last_sent_line(
        state.sent@,
    )
}

/// Every instant and date of the state can be formatted.
pub open spec fn state_formattable(state: State) -> bool {
    &&& (state.last_schedule_date matches Some(d) ==> d.in_range())
    &&& forall|k: int| 0 <= k < state.pending@.len() ==> (#[trigger] state.pending@[k]).at.wf()
    &&& forall|k: int|
        0 <= k < state.sent@.len() ==> (#[trigger] state.sent@[k]).scheduled_at.wf()
            && state.sent@[k].sent_at.wf()
}

fn pending_line_text(p: &PendingPoke) -> (r: String)
    requires
        p.at.wf(),
    ensures
        r@ == pending_line(*p),
{
    let mut out = String::from_str("  ");
    out.append(p.id.as_str());
    out.append(" ");
    let at = format_datetime(p.at);
    out.append(at.as_str());
    out.append(" ");
    out.append(p.kind.as_str());
    out.append(" [");
    out.append(p.category.as_str());
    out.append("] ");
    out.append(p.message.as_str());
    out.append("\n");
    assert(out@ =~= pending_line(*p));
    out
}

fn last_sent_text(sent: &Vec<SentPoke>) -> (r: String)
    requires
        sent@.len() > 0 ==> sent@.last().scheduled_at.wf() && sent@.last().sent_at.wf(),
    ensures
        r@ == last_sent_line(sent@),
{
    if sent.len() == 0 {
        return String::from_str("  none\n");
    }
    let s = &sent[sent.len() - 1];
    let mut out = String::from_str("  ");
    out.append(s.id.as_str());
    out.append(" scheduled=");
    let scheduled = format_datetime(s.scheduled_at);
    out.append(scheduled.as_str());
    out.append(" sent=");
    let sent_at = format_datetime(s.sent_at);
    out.append(sent_at.as_str());
    out.append(" ");
    out.append(s.kind.as_str());
    out.append(" [");
    out.append(s.category.as_str());
    out.append("] ");
    out.append(s.message.as_str());
    out.append("\n");
    assert(out@ =~= last_sent_line(sent@));
    out
}

/// The first lines of `show`: paths and schedule date.
pub open spec fn header_text(paths: PokePaths, date: Option<LocalDate>) -> Seq<char> {
    "config: "@ + paths.config_file@ + "\n"@ + "state: "@ + paths.state_file@ + "\n"@ + "logs: "@
        + paths.log_dir@ + "\n"@ + "last_schedule_date: "@ + debug_date(date) + "\n"@
}

fn header(paths: &PokePaths, date: Option<LocalDate>) -> (r: String)
    requires
        date matches Some(d) ==> d.in_range(),
    ensures
        r@ == header_text(*paths, date),
{
    let mut out = String::from_str("config: ");
    out.append(paths.config_file.as_str());
    out.append("\n");
    out.append("state: ");
    out.append(paths.state_file.as_str());
    out.append("\n");
    out.append("logs: ");
    out.append(paths.log_dir.as_str());
    out.append("\n");
    out.append("last_schedule_date: ");
    let ghost before = out@;
    match date {
        Some(d) => {
            out.append("Some(");
            let text = format_date(d);
            out.append(text.as_str());
            out.append(")");
        },
        None => {
            out.append("None");
        },
    }
    assert(out@ =~= before + debug_date(date));
    out.append("\n");
    assert(out@ =~= header_text(*paths, date));
    out
}

/// The text `show` prints for the paths and a loaded state; it only reads
/// the state.
pub fn show(paths: &PokePaths, state: &State) -> (r: String)
    requires
        state_formattable(*state),
    ensures
        r@ == show_text(*paths, *state),
{
    let mut out = header(paths, state.last_schedule_date);
    out.append("pending:\n");
    let ghost head = out@;
    let mut k: usize = 0;
    while k < state.pending.len()
        invariant
            k <= state.pending@.len(),
            state_formattable(*state),
            out@ == head + pending_lines(state.pending@.take(k as int)),
        decreases state.pending@.len() - k,
    {
        let line = pending_line_text(&state.pending[k]);
        out.append(line.as_str());
        proof {
            assert(state.pending@.take(k + 1).drop_last() =~= state.pending@.take(k as int));
            assert(state.pending@.take(k + 1).last() == state.pending@[k as int]);
            assert(out@ =~= head + pending_lines(state.pending@.take(k + 1)));
        }
        k += 1;
    }
    assert(state.pending@.take(state.pending@.len() as int) =~= state.pending@);
    out.append("last_sent:\n");
    let last = last_sent_text(&state.sent);
    out.append(last.as_str());
    assert(out@ =~= show_text(*paths, *state));
    out
}

proof fn lemma_still_future_members(pending: Seq<PendingPoke>, now: Timestamp)
    ensures
        forall|k: int|
            0 <= k < still_future(pending, now).len() ==> pending.contains(
                #[trigger] still_future(pending, now)[k],
            ) && still_future(pending, now)[k].at.secs > now.secs,
        forall|k: int|
            0 <= k < pending.len() && (#[trigger] pending[k]).at.secs > now.secs ==> still_future(
                pending,
                now,
            ).contains(pending[k]),
        crate::schedule::sorted_by_time(pending) ==> crate::schedule::sorted_by_time(
            still_future(pending, now),
        ),
    decreases pending.len(),
{
    if pending.len() > 0 {
        let t = pending.drop_last();
        lemma_still_future_members(t, now);
        let rest = still_future(t, now);
        let r = still_future(pending, now);
        assert forall|k: int| 0 <= k < r.len() implies pending.contains(#[trigger] r[k]) && r[k].at.secs
            > now.secs by {
            if k < rest.len() {
                assert(r[k] == rest[k]);
                let i = choose|i: int| 0 <= i < t.len() && t[i] == rest[k];
                assert(pending[i] == t[i]);
            } else {
                assert(r[k] == pending.last());
                assert(pending[pending.len() - 1] == pending.last());
            }
        }
        assert forall|k: int|
            0 <= k < pending.len() && (#[trigger] pending[k]).at.secs > now.secs implies r.contains(
            pending[k],
        ) by {
            if k < pending.len() - 1 {
                assert(t[k] == pending[k]);
                let i = choose|i: int| 0 <= i < rest.len() && rest[i] == t[k];
                assert(r[i] == rest[i]);
            } else {
                assert(r[r.len() - 1] == pending.last());
            }
        }
        if crate::schedule::sorted_by_time(pending) {
            assert(crate::schedule::sorted_by_time(t)) by {
                assert forall|i: int, j: int| 0 <= i <= j < t.len() implies #[trigger] t[i].at.secs
                    <= #[trigger] t[j].at.secs by {
                    assert(t[i] == pending[i] && t[j] == pending[j]);
                }
            }
            assert forall|i: int, j: int| 0 <= i <= j < r.len() implies #[trigger] r[i].at.secs
                <= #[trigger] r[j].at.secs by {
                if j < rest.len() {
                    assert(r[i] == rest[i] && r[j] == rest[j]);
                } else if i < rest.len() {
                    assert(r[i] == rest[i]);
                    let a = choose|a: int| 0 <= a < t.len() && t[a] == rest[i];
                    assert(pending[a] == t[a]);
                    assert(r[j] == pending[pending.len() - 1]);
                }
            }
        }
    }
}

/// After a successful send every poke left in the queue is still in the
/// future, and every poke that was in the future is still there: the other
/// missed pokes are dropped, nothing else is.
pub proof fn lemma_missed_pokes_dropped(pending: Seq<PendingPoke>, k: int, now: Timestamp)
    requires
        0 <= k < pending.len(),
    ensures
        forall|i: int|
            0 <= i < still_future(pending.remove(k), now).len() ==> (#[trigger] still_future(
                pending.remove(k),
                now,
            )[i]).at.secs > now.secs,
        forall|i: int|
            0 <= i < pending.len() && i != k && (#[trigger] pending[i]).at.secs > now.secs
                ==> still_future(pending.remove(k), now).contains(pending[i]),
{
    let rest = pending.remove(k);
    lemma_still_future_members(rest, now);
    assert forall|i: int|
        0 <= i < pending.len() && i != k && (#[trigger] pending[i]).at.secs > now.secs implies still_future(
        rest,
        now,
    ).contains(pending[i]) by {
        let j = if i < k {
            i
        } else {
            i - 1
        };
        assert(rest[j] == pending[i]);
    }
}

/// A tick keeps the queue in time order: if it was sorted before the send
/// step, it is sorted after it, whatever the sender answered.
pub proof fn lemma_tick_keeps_queue_sorted(
    now: Timestamp,
    within: bool,
    changed: bool,
    p0: Seq<PendingPoke>,
    s0: Seq<SentPoke>,
    h0: Seq<RecentMessage>,
    p1: Seq<PendingPoke>,
    s1: Seq<SentPoke>,
    h1: Seq<RecentMessage>,
    result: Result<TickOutcome, TickError>,
)
    requires
        crate::schedule::sorted_by_time(p0),
        send_step(now, within, changed, p0, s0, h0, p1, s1, h1, result),
    ensures
        crate::schedule::sorted_by_time(p1),
{
    if !none_due(p0, now, within) {
        let k = choose|k: int|
            #[trigger] first_due(p0, now, within, k) && step_with(k, now, p0, s0, h0, p1, s1, h1, result);
        if result is Ok {
            let rest = p0.remove(k);
            assert(crate::schedule::sorted_by_time(rest)) by {
                assert forall|i: int, j: int| 0 <= i <= j < rest.len() implies #[trigger] rest[i].at.secs
                    <= #[trigger] rest[j].at.secs by {
                    let a = if i < k {
                        i
                    } else {
                        i + 1
                    };
                    let b = if j < k {
                        j
                    } else {
                        j + 1
                    };
                    assert(rest[i] == p0[a] && rest[j] == p0[b]);
                }
            }
            lemma_still_future_members(rest, now);
        }
    }
}

/// A send step that ends in an error leaves the queue, the sent list and
/// the history as they were.
pub proof fn lemma_failed_send_keeps_state(
    now: Timestamp,
    within: bool,
    changed: bool,
    p0: Seq<PendingPoke>,
    s0: Seq<SentPoke>,
    h0: Seq<RecentMessage>,
    p1: Seq<PendingPoke>,
    s1: Seq<SentPoke>,
    h1: Seq<RecentMessage>,
    result: Result<TickOutcome, TickError>,
)
    requires
        send_step(now, within, changed, p0, s0, h0, p1, s1, h1, result),
        result is Err,
    ensures
        p1 == p0,
        s1 == s0,
        h1 == h0,
{
}

/// A tick records at most one send; the poke it records was due: its time
/// had come, and unless it is a fixed-time poke the active window was open.
pub proof fn lemma_one_due_send_per_tick(
    now: Timestamp,
    within: bool,
    changed: bool,
    p0: Seq<PendingPoke>,
    s0: Seq<SentPoke>,
    h0: Seq<RecentMessage>,
    p1: Seq<PendingPoke>,
    s1: Seq<SentPoke>,
    h1: Seq<RecentMessage>,
    result: Result<TickOutcome, TickError>,
)
    requires
        send_step(now, within, changed, p0, s0, h0, p1, s1, h1, result),
    ensures
        s1 == s0 || (s1.len() == s0.len() + 1 && s1.drop_last() == s0),
        s1.len() == s0.len() + 1 ==> {
            &&& s1.last().scheduled_at.secs <= now.secs
            &&& s1.last().sent_at == now
            &&& (s1.last().kind == PokeKind::Scheduled || within)
        },
{
    if !none_due(p0, now, within) {
        let k = choose|k: int|
            #[trigger] first_due(p0, now, within, k) && step_with(k, now, p0, s0, h0, p1, s1, h1, result);
    }
}

/// A tick is safe to run again: once it has returned `Ok`, nothing left in
/// the queue is due at the same instant, so a second tick right after it
/// hands the sender nothing (`tick_sends`) and changes nothing.
pub proof fn lemma_repeat_tick_sends_nothing(
    now: Timestamp,
    within: bool,
    changed: bool,
    p0: Seq<PendingPoke>,
    s0: Seq<SentPoke>,
    h0: Seq<RecentMessage>,
    p1: Seq<PendingPoke>,
    s1: Seq<SentPoke>,
    h1: Seq<RecentMessage>,
    result: Result<TickOutcome, TickError>,
)
    requires
        send_step(now, within, changed, p0, s0, h0, p1, s1, h1, result),
        result is Ok,
    ensures
        none_due(p1, now, within),
{
    if !none_due(p0, now, within) {
        let k = choose|k: int|
            #[trigger] first_due(p0, now, within, k) && step_with(k, now, p0, s0, h0, p1, s1, h1, result);
        lemma_still_future_members(p0.remove(k), now);
        assert forall|j: int| 0 <= j < p1.len() implies !due(#[trigger] p1[j], now, within) by {
            assert(p1[j].at.secs > now.secs);
        }
    }
}

/// In a queue kept in time order, the poke a tick sends is the earliest of
/// those due: no due poke is scheduled before it.
pub proof fn lemma_sends_earliest_due(pending: Seq<PendingPoke>, now: Timestamp, within: bool, k: int)
    requires
        crate::schedule::sorted_by_time(pending),
        first_due(pending, now, within, k),
    ensures
        forall|j: int|
            0 <= j < pending.len() && #[trigger] due(pending[j], now, within) ==> pending[k].at.secs
                <= pending[j].at.secs,
{
    assert forall|j: int|
        0 <= j < pending.len() && #[trigger] due(pending[j], now, within) implies pending[k].at.secs
        <= pending[j].at.secs by {
        if j < k {
            assert(!due(pending[j], now, within));
        }
    }
}

/// A tick hands the sender nothing when no poke is due, and otherwise
/// exactly one message, that of the first due poke, getting one answer.
pub proof fn lemma_hands_first_due_only(
    now: Timestamp,
    within: bool,
    p0: Seq<PendingPoke>,
    s0: Seq<SentPoke>,
    h0: Seq<RecentMessage>,
    p1: Seq<PendingPoke>,
    s1: Seq<SentPoke>,
    h1: Seq<RecentMessage>,
    result: Result<TickOutcome, TickError>,
    m0: Seq<Seq<char>>,
    m1: Seq<Seq<char>>,
    q0: Seq<Result<DeliveryOutput, SendError>>,
    q1: Seq<Result<DeliveryOutput, SendError>>,
)
    requires
        tick_sends(now, within, p0, s0, h0, p1, s1, h1, result, m0, m1, q0, q1),
    ensures
        none_due(p0, now, within) <==> m1 == m0,
        none_due(p0, now, within) ==> q1 == q0,
        !none_due(p0, now, within) ==> exists|k: int|
            #[trigger] first_due(p0, now, within, k) && m1 == m0.push(p0[k].message@)
                && q1.len() == q0.len() + 1,
{
    if !none_due(p0, now, within) {
        let k = choose|k: int|
            #[trigger] first_due(p0, now, within, k) && m1 == m0.push(p0[k].message@) && q1.len()
                == q0.len() + 1 && q1.drop_last() == q0 && reply_step(
                k,
                now,
                p0,
                s0,
                h0,
                p1,
                s1,
                h1,
                result,
                q1.last(),
            );
        assert(m1.len() == m0.len() + 1);
    }
}

/// When the sender's answer is not a delivery (it could not run, or exited
/// with another status), the tick reports that answer as an error and keeps
/// the queue, the sent list and the history as they were; only a delivery
/// moves the poke to the sent list.
pub proof fn lemma_failed_delivery_keeps_queue(
    now: Timestamp,
    within: bool,
    p0: Seq<PendingPoke>,
    s0: Seq<SentPoke>,
    h0: Seq<RecentMessage>,
    p1: Seq<PendingPoke>,
    s1: Seq<SentPoke>,
    h1: Seq<RecentMessage>,
    result: Result<TickOutcome, TickError>,
    m0: Seq<Seq<char>>,
    m1: Seq<Seq<char>>,
    q0: Seq<Result<DeliveryOutput, SendError>>,
    q1: Seq<Result<DeliveryOutput, SendError>>,
)
    requires
        tick_sends(now, within, p0, s0, h0, p1, s1, h1, result, m0, m1, q0, q1),
    ensures
        q1.len() > q0.len() && !delivered(q1.last()) ==> {
            &&& result == Err::<TickOutcome, TickError>(failure_of(q1.last()))
            &&& p1 == p0
            &&& s1 == s0
            &&& h1 == h0
        },
        s1.len() > s0.len() ==> q1.len() > q0.len() && delivered(q1.last()),
{
    if !none_due(p0, now, within) {
        let k = choose|k: int|
            #[trigger] first_due(p0, now, within, k) && m1 == m0.push(p0[k].message@) && q1.len()
                == q0.len() + 1 && q1.drop_last() == q0 && reply_step(
                k,
                now,
                p0,
                s0,
                h0,
                p1,
                s1,
                h1,
                result,
                q1.last(),
            );
    }
}

/// The queue is regenerated only on a new calendar day: a state whose
/// schedule date is today's is not a new day, whatever its queue holds,
/// and a state with no date or another date is.
pub proof fn lemma_regenerates_only_on_a_new_date(state: State, now: Timestamp)
    requires
        now.wf(),
    ensures
        state.last_schedule_date == Some(LocalDate { days: now.local_day() as i32 }) ==> !new_day(
            state,
            now,
        ),
        state.last_schedule_date is None ==> new_day(state, now),
        state.last_schedule_date matches Some(d) && d.days != now.local_day() ==> new_day(state, now),
{
}

impl TickError {
    pub open spec fn formattable(self) -> bool {
        self matches TickError::Schedule(e) ==> e.formattable()
    }

    /// The message shown for a failed tick.
    pub open spec fn text(self) -> Seq<char> {
        match self {
            TickError::Schedule(e) => "failed to generate today's schedule: "@ + e.text(),
            TickError::Send(e) => e.message@,
            TickError::DeliveryFailed(out) => "imsg failed with exit status "@ + match out.status_code {
                Some(c) => crate::text::signed_decimal(c as int),
                None => "terminated by signal"@,
            },
        }
    }

    pub fn message(&self) -> (r: String)
        requires
            self.formattable(),
        ensures
            r@ == self.text(),
    {
        match self {
            TickError::Schedule(e) => {
                let mut r = String::from_str("failed to generate today's schedule: ");
                let inner = e.message();
                r.append(inner.as_str());
                r
            },
            TickError::Send(e) => e.message.clone(),
            TickError::DeliveryFailed(out) => {
                let mut r = String::from_str("imsg failed with exit status ");
                match out.status_code {
                    Some(c) => {
                        let code = crate::text::signed_decimal_string(c as i64);
                        r.append(code.as_str());
                    },
                    None => {
                        r.append("terminated by signal");
                    },
                }
                r
            },
        }
    }
}

} // verus!
