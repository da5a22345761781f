use chrono::{DateTime, NaiveDate};
use poke::config::default_config;
use poke::delivery::{DeliveryOutput, RecordingSender, SendError, Sender};
use poke::paths::PokePaths;
use poke::state::{PendingPoke, PokeKind, RecentMessage, SentPoke, State};
use poke::tick::{process_tick, record_recent_send, show, RECENT_HISTORY_LIMIT};
use poke::time::{LocalDate, Timestamp};

struct FakeSender {
    status_code: Option<i32>,
    calls: Vec<String>,
}

impl Sender for FakeSender {
    fn send(&mut self, message: &str) -> Result<DeliveryOutput, SendError> {
        self.calls.push(message.to_string());
        Ok(DeliveryOutput {
            status_code: self.status_code,
            stdout: String::new(),
            stderr: "boom".to_string(),
        })
    }
}

fn dt(hour: i32, minute: i32) -> Timestamp {
    let d = DateTime::parse_from_rfc3339(&format!("2026-04-19T{hour:02}:{minute:02}:00-04:00"))
        .unwrap();
    Timestamp { secs: d.timestamp(), offset: d.offset().local_minus_utc() }
}

fn minus_one_day(t: Timestamp) -> Timestamp {
    Timestamp { secs: t.secs - 86400, offset: t.offset }
}

fn date(y: i32, m: u32, d: u32) -> LocalDate {
    let day = NaiveDate::from_ymd_opt(y, m, d).unwrap();
    let epoch = NaiveDate::from_ymd_opt(1970, 1, 1).unwrap();
    LocalDate { days: (day - epoch).num_days() as i32 }
}

fn poke(id: &str, at: Timestamp) -> PendingPoke {
    poke_with_kind(id, at, PokeKind::Random)
}

fn poke_with_kind(id: &str, at: Timestamp, kind: PokeKind) -> PendingPoke {
    PendingPoke {
        id: id.to_string(),
        at,
        message: format!("message {id}"),
        category: "default".to_string(),
        kind,
    }
}

#[test]
fn no_op_before_first_due_time() {
    let config = default_config();
    let mut state = State {
        last_schedule_date: Some(date(2026, 4, 19)),
        pending: vec![poke("a", dt(10, 0))],
        sent: vec![],
        recent_history: vec![],
    };
    let mut sender = RecordingSender::new(FakeSender { status_code: Some(0), calls: vec![] });
    let outcome = process_tick(&config, &mut state, dt(9, 30), &mut sender).unwrap();
    assert!(!outcome.state_changed);
    assert!(!outcome.sent_message);
    assert!(sender.inner.calls.is_empty());
    assert_eq!(state.pending.len(), 1);
}

#[test]
fn due_poke_is_dequeued_after_success() {
    let config = default_config();
    let mut state = State {
        last_schedule_date: Some(date(2026, 4, 19)),
        pending: vec![poke("a", dt(9, 0)), poke("b", dt(10, 0))],
        sent: vec![],
        recent_history: vec![],
    };
    let mut sender = RecordingSender::new(FakeSender { status_code: Some(0), calls: vec![] });
    let outcome = process_tick(&config, &mut state, dt(9, 5), &mut sender).unwrap();
    assert!(outcome.state_changed);
    assert!(outcome.sent_message);
    assert_eq!(sender.inner.calls, vec!["message a"]);
    assert_eq!(state.pending, vec![poke("b", dt(10, 0))]);
    assert_eq!(state.sent.len(), 1);
    assert_eq!(state.recent_history, vec![RecentMessage::new("message a", "default")]);
}

#[test]
fn multiple_overdue_sends_one_and_drops_other_missed_after_success() {
    let config = default_config();
    let mut state = State {
        last_schedule_date: Some(date(2026, 4, 19)),
        pending: vec![poke("a", dt(9, 0)), poke("b", dt(9, 30)), poke("c", dt(11, 0))],
        sent: vec![],
        recent_history: vec![],
    };
    let mut sender = RecordingSender::new(FakeSender { status_code: Some(0), calls: vec![] });
    process_tick(&config, &mut state, dt(10, 0), &mut sender).unwrap();
    assert_eq!(sender.inner.calls, vec!["message a"]);
    assert_eq!(state.pending, vec![poke("c", dt(11, 0))]);
    assert_eq!(state.sent.len(), 1);
}

#[test]
fn failed_send_preserves_pending_queue() {
    let config = default_config();
    let original = vec![poke("a", dt(9, 0)), poke("b", dt(10, 0))];
    let mut state = State {
        last_schedule_date: Some(date(2026, 4, 19)),
        pending: original.clone(),
        sent: vec![],
        recent_history: vec![],
    };
    let mut sender = RecordingSender::new(FakeSender { status_code: Some(1), calls: vec![] });
    assert!(process_tick(&config, &mut state, dt(9, 5), &mut sender).is_err());
    assert_eq!(state.pending, original);
    assert!(state.sent.is_empty());
    assert!(state.recent_history.is_empty());
}

#[test]
fn new_day_rollover_replaces_pending_and_clears_sent() {
    let config = default_config();
    let mut state = State {
        last_schedule_date: Some(date(2026, 4, 18)),
        pending: vec![poke("old", dt(9, 0))],
        sent: vec![SentPoke {
            id: "old".to_string(),
            scheduled_at: minus_one_day(dt(9, 0)),
            sent_at: minus_one_day(dt(9, 5)),
            message: "old".to_string(),
            category: "default".to_string(),
            kind: PokeKind::Random,
        }],
        recent_history: vec![RecentMessage::new("old", "default")],
    };
    let mut sender = RecordingSender::new(FakeSender { status_code: Some(0), calls: vec![] });
    let outcome = process_tick(&config, &mut state, dt(8, 0), &mut sender).unwrap();
    assert!(outcome.state_changed);
    assert!(!outcome.sent_message);
    assert_eq!(state.last_schedule_date, Some(date(2026, 4, 19)));
    assert_eq!(state.pending.len(), config.schedule.random_per_day.default);
    assert!(state.sent.is_empty());
    assert_eq!(state.recent_history, vec![RecentMessage::new("old", "default")]);
}

#[test]
fn show_output_does_not_mutate_state() {
    let paths = PokePaths::from_bases("/tmp/poke-test/config", "/tmp/poke-test/state");
    let state = State {
        last_schedule_date: Some(date(2026, 4, 19)),
        pending: vec![poke("a", dt(9, 0))],
        sent: vec![],
        recent_history: vec![],
    };
    let before = state.clone();
    let output = show(&paths, &state);
    assert!(output.contains("pending:"));
    assert_eq!(before, state);
}

#[test]
fn recent_history_is_bounded_to_last_successful_sends() {
    let mut history = Vec::new();
    for index in 0..10 {
        record_recent_send(&mut history, RecentMessage::new(&format!("message {index}"), "default"));
    }

    assert_eq!(history.len(), RECENT_HISTORY_LIMIT);
    assert_eq!(history.first().unwrap().message, "message 2");
    assert_eq!(history.last().unwrap().message, "message 9");
}

#[test]
fn random_poke_does_not_send_after_active_window() {
    let config = default_config();
    let mut state = State {
        last_schedule_date: Some(date(2026, 4, 19)),
        pending: vec![poke("a", dt(20, 0))],
        sent: vec![],
        recent_history: vec![],
    };
    let mut sender = RecordingSender::new(FakeSender { status_code: Some(0), calls: vec![] });
    let outcome = process_tick(&config, &mut state, dt(21, 30), &mut sender).unwrap();
    assert!(!outcome.state_changed);
    assert!(!outcome.sent_message);
    assert!(sender.inner.calls.is_empty());
    assert_eq!(state.pending, vec![poke("a", dt(20, 0))]);
}

#[test]
fn scheduled_poke_sends_after_active_window() {
    let config = default_config();
    let mut state = State {
        last_schedule_date: Some(date(2026, 4, 19)),
        pending: vec![poke_with_kind("fixed", dt(21, 15), PokeKind::Scheduled)],
        sent: vec![],
        recent_history: vec![],
    };
    let mut sender = RecordingSender::new(FakeSender { status_code: Some(0), calls: vec![] });
    let outcome = process_tick(&config, &mut state, dt(21, 30), &mut sender).unwrap();
    assert!(outcome.state_changed);
    assert!(outcome.sent_message);
    assert_eq!(sender.inner.calls, vec!["message fixed"]);
    assert!(state.pending.is_empty());
    assert_eq!(state.sent[0].kind, PokeKind::Scheduled);
    assert!(state.recent_history.is_empty());
}

#[test]
fn earliest_due_still_limits_tick_to_one_message() {
    let config = default_config();
    let mut state = State {
        last_schedule_date: Some(date(2026, 4, 19)),
        pending: vec![
            poke_with_kind("fixed", dt(9, 0), PokeKind::Scheduled),
            poke("random", dt(9, 5)),
        ],
        sent: vec![],
        recent_history: vec![],
    };
    let mut sender = RecordingSender::new(FakeSender { status_code: Some(0), calls: vec![] });
    process_tick(&config, &mut state, dt(9, 10), &mut sender).unwrap();
    assert_eq!(sender.inner.calls, vec!["message fixed"]);
    assert!(state.pending.is_empty());
    assert_eq!(state.sent.len(), 1);
}
