use chrono::{DateTime, FixedOffset, NaiveDate};
use poke::config::{default_config, IntervalMessage, MessageTemplate, ScheduledMessage};
use poke::rng::DrawSource;
use poke::schedule::{active_interval, generate_for_date, is_within_active_window};
use poke::state::{PendingPoke, PokeKind, RecentMessage};
use poke::time::{LocalDate, TimeOfDay, Timestamp};
use rand::rngs::StdRng;
use rand::SeedableRng;

fn date(y: i32, m: u32, d: u32) -> LocalDate {
    let day = NaiveDate::from_ymd_opt(y, m, d).unwrap();
    let epoch = NaiveDate::from_ymd_opt(1970, 1, 1).unwrap();
    LocalDate { days: (day - epoch).num_days() as i32 }
}

fn ts(text: &str) -> Timestamp {
    let dt = DateTime::parse_from_rfc3339(text).unwrap();
    Timestamp { secs: dt.timestamp(), offset: dt.offset().local_minus_utc() }
}

fn clock(at: Timestamp) -> String {
    let offset = FixedOffset::east_opt(at.offset).unwrap();
    DateTime::from_timestamp(at.secs, 0)
        .unwrap()
        .with_timezone(&offset)
        .format("%H:%M")
        .to_string()
}

fn message(text: &str, category: &str) -> MessageTemplate {
    MessageTemplate::new(text, category)
}

fn time(hour: u32, minute: u32) -> TimeOfDay {
    TimeOfDay::from_hms(hour, minute, 0).unwrap()
}

#[test]
fn generated_count_equals_pokes_per_day() {
    let config = default_config();
    let mut rng = DrawSource::new(StdRng::seed_from_u64(1));
    let pokes = generate_for_date(&config, &vec![], date(2026, 4, 19), &mut rng).unwrap();
    assert_eq!(pokes.len(), config.schedule.random_per_day.default);
}

#[test]
fn generated_count_includes_scheduled_messages() {
    let mut config = default_config();
    config.scheduled.items = vec![
        ScheduledMessage::new(time(8, 0), "Before window.", "fixed"),
        ScheduledMessage::new(time(22, 0), "After window.", "fixed"),
    ];
    let mut rng = DrawSource::new(StdRng::seed_from_u64(1));
    let pokes = generate_for_date(&config, &vec![], date(2026, 4, 19), &mut rng).unwrap();
    assert_eq!(
        pokes.len(),
        config.schedule.random_per_day.default + config.scheduled.items.len()
    );
    assert_eq!(pokes.iter().filter(|poke| poke.kind == PokeKind::Scheduled).count(), 2);
}

#[test]
fn generated_count_includes_interval_messages() {
    let mut config = default_config();
    config.schedule.start_hour = 9;
    config.schedule.end_hour = 12;
    config.schedule.random_per_day.default = 1;
    config.intervals.items = vec![IntervalMessage::new(60, "Drink water.", "hydration")];
    let mut rng = DrawSource::new(StdRng::seed_from_u64(13));
    let pokes = generate_for_date(&config, &vec![], date(2026, 4, 19), &mut rng).unwrap();
    let interval_pokes: Vec<&PendingPoke> =
        pokes.iter().filter(|poke| poke.kind == PokeKind::Interval).collect();
    assert_eq!(interval_pokes.len(), 3);
    assert_eq!(pokes.len(), config.schedule.random_per_day.default + interval_pokes.len());
    assert_eq!(interval_pokes[0].at.hour(), 9);
    assert_eq!(interval_pokes[1].at.hour(), 10);
    assert_eq!(interval_pokes[2].at.hour(), 11);
}

#[test]
fn generated_times_are_inside_active_window() {
    let config = default_config();
    let day = date(2026, 4, 19);
    let mut rng = DrawSource::new(StdRng::seed_from_u64(2));
    let interval =
        active_interval(day, config.schedule.start_hour, config.schedule.end_hour).unwrap();
    let pokes = generate_for_date(&config, &vec![], day, &mut rng).unwrap();
    assert!(pokes
        .iter()
        .all(|poke| poke.at.secs >= interval.start.secs && poke.at.secs < interval.end.secs));
}

#[test]
fn generated_times_respect_minimum_spacing() {
    let mut config = default_config();
    config.schedule.random_per_day.default = 4;
    config.schedule.random_min_spacing_minutes = 90;
    let mut rng = DrawSource::new(StdRng::seed_from_u64(3));
    let pokes = generate_for_date(&config, &vec![], date(2026, 4, 19), &mut rng).unwrap();
    for pair in pokes.windows(2) {
        assert!(pair[1].at.secs - pair[0].at.secs >= 90 * 60);
    }
}

#[test]
fn scheduled_messages_do_not_affect_minimum_spacing() {
    let mut config = default_config();
    config.schedule.random_per_day.default = 1;
    config.schedule.random_min_spacing_minutes = 120;
    config.scheduled.items = vec![
        ScheduledMessage::new(time(15, 0), "First fixed.", "fixed"),
        ScheduledMessage::new(time(15, 1), "Second fixed.", "fixed"),
    ];
    let mut rng = DrawSource::new(StdRng::seed_from_u64(5));
    let pokes = generate_for_date(&config, &vec![], date(2026, 4, 19), &mut rng).unwrap();
    assert_eq!(pokes.iter().filter(|poke| poke.kind == PokeKind::Scheduled).count(), 2);
}

#[test]
fn interval_messages_are_start_inclusive_and_end_exclusive() {
    let mut config = default_config();
    config.schedule.start_hour = 9;
    config.schedule.end_hour = 11;
    config.schedule.random_per_day.default = 1;
    config.intervals.items = vec![IntervalMessage::new(30, "Drink water.", "hydration")];
    let mut rng = DrawSource::new(StdRng::seed_from_u64(17));
    let pokes = generate_for_date(&config, &vec![], date(2026, 4, 19), &mut rng).unwrap();
    let times: Vec<String> = pokes
        .iter()
        .filter(|poke| poke.kind == PokeKind::Interval)
        .map(|poke| clock(poke.at))
        .collect();
    assert_eq!(times, vec!["09:00", "09:30", "10:00", "10:30"]);
}

#[test]
fn interval_larger_than_window_generates_start_only() {
    let mut config = default_config();
    config.schedule.start_hour = 9;
    config.schedule.end_hour = 10;
    config.schedule.random_per_day.default = 1;
    config.intervals.items = vec![IntervalMessage::new(120, "Drink water.", "hydration")];
    let mut rng = DrawSource::new(StdRng::seed_from_u64(19));
    let pokes = generate_for_date(&config, &vec![], date(2026, 4, 19), &mut rng).unwrap();
    let interval_pokes: Vec<&PendingPoke> =
        pokes.iter().filter(|poke| poke.kind == PokeKind::Interval).collect();
    assert_eq!(interval_pokes.len(), 1);
    assert_eq!(clock(interval_pokes[0].at), "09:00");
}

#[test]
fn interval_messages_do_not_affect_minimum_spacing() {
    let mut config = default_config();
    config.schedule.random_per_day.default = 1;
    config.schedule.random_min_spacing_minutes = 120;
    config.intervals.items = vec![IntervalMessage::new(5, "Drink water.", "hydration")];
    let mut rng = DrawSource::new(StdRng::seed_from_u64(23));
    let pokes = generate_for_date(&config, &vec![], date(2026, 4, 19), &mut rng).unwrap();
    assert!(pokes
        .iter()
        .any(|poke| poke.kind == PokeKind::Interval && clock(poke.at) == "09:00"));
}

#[test]
fn merged_pending_queue_is_sorted() {
    let mut config = default_config();
    config.schedule.start_hour = 9;
    config.schedule.end_hour = 12;
    config.schedule.random_per_day.default = 1;
    config.scheduled.items = vec![ScheduledMessage::new(time(8, 0), "Early fixed.", "fixed")];
    config.intervals.items = vec![IntervalMessage::new(60, "Drink water.", "hydration")];
    let mut rng = DrawSource::new(StdRng::seed_from_u64(29));
    let pokes = generate_for_date(&config, &vec![], date(2026, 4, 19), &mut rng).unwrap();
    assert!(pokes.windows(2).all(|pair| pair[0].at.secs <= pair[1].at.secs));
}

#[test]
fn all_messages_appear_when_pokes_exceed_message_count() {
    let config = default_config();
    // default: 5 messages, 6 pokes/day
    assert!(config.schedule.random_per_day.default >= config.random.items.len());
    let mut rng = DrawSource::new(StdRng::seed_from_u64(42));
    let pokes = generate_for_date(&config, &vec![], date(2026, 4, 19), &mut rng).unwrap();
    let selected: std::collections::HashSet<&str> =
        pokes.iter().map(|p| p.message.as_str()).collect();
    for msg in &config.random.items {
        assert!(selected.contains(msg.text.as_str()), "message not selected: {}", msg.text);
    }
}

#[test]
fn active_window_is_start_inclusive_and_end_exclusive() {
    let start = ts("2026-04-19T09:00:00-04:00");
    let before_end = ts("2026-04-19T20:59:59-04:00");
    let end = ts("2026-04-19T21:00:00-04:00");
    assert!(is_within_active_window(start, 9, 21));
    assert!(is_within_active_window(before_end, 9, 21));
    assert!(!is_within_active_window(end, 9, 21));
}

#[test]
fn avoids_consecutive_categories_when_alternatives_exist() {
    let mut config = default_config();
    config.schedule.random_per_day.default = 6;
    config.random.items = vec![
        message("Drink water.", "hydration"),
        message("Stretch.", "movement"),
        message("Walk.", "movement"),
        message("Review notes.", "focus"),
    ];
    let mut rng = DrawSource::new(StdRng::seed_from_u64(7));
    let pokes = generate_for_date(&config, &vec![], date(2026, 4, 19), &mut rng).unwrap();
    for pair in pokes.windows(2) {
        let distinct_categories_exist =
            config.random.items.iter().any(|item| item.category != pair[0].category);
        if distinct_categories_exist {
            assert_ne!(pair[0].category, pair[1].category);
        }
    }
}

#[test]
fn avoids_consecutive_messages_when_alternatives_exist() {
    let mut config = default_config();
    config.schedule.random_per_day.default = 5;
    config.random.items = vec![
        message("Drink water.", "default"),
        message("Stretch.", "default"),
        message("Walk.", "default"),
    ];
    let mut rng = DrawSource::new(StdRng::seed_from_u64(9));
    let pokes = generate_for_date(&config, &vec![], date(2026, 4, 19), &mut rng).unwrap();
    for pair in pokes.windows(2) {
        assert_ne!(pair[0].message, pair[1].message);
    }
}

#[test]
fn recent_history_biases_the_first_category_of_the_day() {
    let mut config = default_config();
    config.schedule.random_per_day.default = 2;
    config.random.items = vec![message("Drink water.", "hydration"), message("Stand up.", "movement")];
    let history = vec![RecentMessage::new("Drink water.", "hydration")];
    let mut rng = DrawSource::new(StdRng::seed_from_u64(11));
    let pokes = generate_for_date(&config, &history, date(2026, 4, 19), &mut rng).unwrap();
    assert_eq!(pokes[0].category, "movement");
}
