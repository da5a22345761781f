use chrono::{DateTime, NaiveDate};
use poke::config::{
    default_config, default_message_category, validate_density, ConfigError, MessageTemplate,
    RandomPerDay, ScheduleConfig, WeekdayOverrides,
};
use poke::delivery::{DeliveryOutput, RecordingSender, SendError};
use poke::launchagent::{default_bundle_id, plist_path, render_plist, xml_escape, PlistError};
use poke::paths::{PathsError, PokePaths};
use poke::rotation::select_messages;
use poke::schedule::{
    active_interval, daily_random_count, is_within_active_window, local_datetime, local_datetime_at,
    sort_by_time, ScheduleError,
};
use poke::state::{temp_path, PendingPoke, PokeKind, RecentMessage, SentPoke, State};
use poke::text::{decimal_string, is_absolute, is_blank, join, signed_decimal_string};
use poke::tick::{record_recent_send, show, TickError, RECENT_HISTORY_LIMIT};
use poke::time::{LocalDate, TimeOfDay, Timestamp, Weekday};
use poke::config::parse_scheduled_time;
use rand::rngs::StdRng;
use rand::SeedableRng;

fn date(y: i32, m: u32, d: u32) -> LocalDate {
    let day = NaiveDate::from_ymd_opt(y, m, d).unwrap();
    let epoch = NaiveDate::from_ymd_opt(1970, 1, 1).unwrap();
    LocalDate { days: (day - epoch).num_days() as i32 }
}

fn ts(text: &str) -> Timestamp {
    let dt = DateTime::parse_from_rfc3339(text).unwrap();
    Timestamp { secs: dt.timestamp(), offset: dt.offset().local_minus_utc() }
}

fn pending(id: &str, at: Timestamp, kind: PokeKind) -> PendingPoke {
    PendingPoke {
        id: id.to_string(),
        at,
        message: format!("message {id}"),
        category: "default".to_string(),
        kind,
    }
}

fn schedule(start: u32, end: u32, default: usize, jitter: usize, spacing: i64) -> ScheduleConfig {
    ScheduleConfig {
        start_hour: start,
        end_hour: end,
        random_per_day: RandomPerDay { default, jitter, weekday: WeekdayOverrides::none() },
        random_min_spacing_minutes: spacing,
    }
}

#[test]
fn config_error_messages_name_the_broken_rule() {
    assert_eq!(
        ConfigError::EmptyDestination.message(),
        "delivery.destination must not be empty"
    );
    assert_eq!(
        ConfigError::MissingImsgPath("/tmp/imsg".to_string()).message(),
        "delivery.imsg_path does not exist: /tmp/imsg"
    );
    assert_eq!(
        ConfigError::ShortIntervalMinutes.message(),
        "intervals.items every_minutes must be at least 5"
    );
    assert_eq!(
        ConfigError::WindowTooSmall { worst_case: 7, spacing_minutes: 120 }.message(),
        "schedule window is too small for 7 pokes with 120 minutes minimum spacing"
    );
}

#[test]
fn missing_imsg_is_reported_only_when_required() {
    let config = default_config();
    match config.validate(true, false) {
        Err(ConfigError::MissingImsgPath(path)) => assert_eq!(path, "/opt/homebrew/bin/imsg"),
        other => panic!("unexpected {other:?}"),
    }
    assert!(config.validate(true, true).is_ok());
    assert!(config.validate(false, false).is_ok());
}

#[test]
fn relative_imsg_path_is_rejected_before_existence() {
    let mut config = default_config();
    config.delivery.imsg_path = "bin/imsg".to_string();
    assert!(matches!(config.validate(true, false), Err(ConfigError::RelativeImsgPath)));
}

#[test]
fn blank_destination_is_rejected_first() {
    let mut config = default_config();
    config.delivery.destination = " \t ".to_string();
    config.random.items.clear();
    assert!(matches!(config.validate(false, false), Err(ConfigError::EmptyDestination)));
}

#[test]
fn hours_out_of_range_are_rejected() {
    let mut config = default_config();
    config.schedule.start_hour = 24;
    assert!(matches!(config.validate(false, false), Err(ConfigError::StartHourOutOfRange)));
    config.schedule.start_hour = 9;
    config.schedule.end_hour = 25;
    assert!(matches!(config.validate(false, false), Err(ConfigError::EndHourOutOfRange)));
    config.schedule.end_hour = 9;
    assert!(matches!(config.validate(false, false), Err(ConfigError::EndNotAfterStart)));
}

#[test]
fn negative_spacing_and_empty_pool_are_rejected() {
    let mut config = default_config();
    config.schedule.random_min_spacing_minutes = -1;
    assert!(matches!(config.validate(false, false), Err(ConfigError::NegativeSpacing)));
    config.schedule.random_min_spacing_minutes = 0;
    config.random.items.clear();
    assert!(matches!(config.validate(false, false), Err(ConfigError::NoRandomItems)));
}

#[test]
fn density_holds_exactly_below_the_window() {
    // Two pokes one hour apart need more than a one-hour window.
    assert!(validate_density(&schedule(9, 10, 2, 0, 60)).is_err());
    assert!(validate_density(&schedule(9, 10, 2, 0, 59)).is_ok());
    // A single poke has no gaps.
    assert!(validate_density(&schedule(9, 10, 1, 0, 10_000)).is_ok());
    // Jitter raises the worst case: 2 + 1 pokes, two gaps of 30 minutes.
    match validate_density(&schedule(9, 10, 2, 1, 30)) {
        Err(ConfigError::WindowTooSmall { worst_case, spacing_minutes }) => {
            assert_eq!(worst_case, 3);
            assert_eq!(spacing_minutes, 30);
        }
        other => panic!("unexpected {other:?}"),
    }
    assert!(validate_density(&schedule(9, 10, 2, 1, 29)).is_ok());
}

#[test]
fn weekday_override_sets_the_baseline() {
    let mut per_day = RandomPerDay { default: 4, jitter: 0, weekday: WeekdayOverrides::none() };
    per_day.weekday.sunday = Some(9);
    assert_eq!(per_day.baseline_for(Weekday::Sun), 9);
    assert_eq!(per_day.baseline_for(Weekday::Mon), 4);
    assert_eq!(per_day.max_possible(), 9);
    assert_eq!(per_day.weekday.values(), vec![9]);
    assert!(!per_day.weekday.is_empty());
    let mut rng = StdRng::seed_from_u64(3);
    assert_eq!(daily_random_count(&per_day, Weekday::Sun, &mut rng), 9);
    assert_eq!(daily_random_count(&per_day, Weekday::Tue, &mut rng), 4);
}

#[test]
fn jittered_count_stays_in_range_and_at_least_one() {
    let per_day = RandomPerDay { default: 5, jitter: 2, weekday: WeekdayOverrides::none() };
    let small = RandomPerDay { default: 1, jitter: 3, weekday: WeekdayOverrides::none() };
    for seed in 0..200 {
        let mut rng = StdRng::seed_from_u64(seed);
        let n = daily_random_count(&per_day, Weekday::Wed, &mut rng);
        assert!((3..=7).contains(&n), "count {n}");
        let m = daily_random_count(&small, Weekday::Wed, &mut rng);
        assert!((1..=4).contains(&m), "count {m}");
    }
}

#[test]
fn weekday_of_known_dates() {
    assert_eq!(date(2026, 4, 19).weekday(), Weekday::Sun);
    assert_eq!(date(1970, 1, 1).weekday(), Weekday::Thu);
    assert_eq!(date(2026, 4, 19).succ(), Some(date(2026, 4, 20)));
}

#[test]
fn timestamp_reads_local_hour_and_day() {
    let at = ts("2026-04-19T23:30:00-04:00");
    assert_eq!(at.hour(), 23);
    assert_eq!(at.date_naive(), date(2026, 4, 19));
    let later = at.plus_seconds(3600);
    assert_eq!(later.hour(), 0);
    assert_eq!(later.date_naive(), date(2026, 4, 20));
}

#[test]
fn active_window_checks_the_local_hour() {
    assert!(is_within_active_window(ts("2026-04-19T09:00:00-04:00"), 9, 21));
    assert!(is_within_active_window(ts("2026-04-19T20:59:59-04:00"), 9, 21));
    assert!(!is_within_active_window(ts("2026-04-19T21:00:00-04:00"), 9, 21));
    assert!(!is_within_active_window(ts("2026-04-19T08:59:59-04:00"), 9, 21));
}

#[test]
fn local_wall_clock_times_keep_their_clock_reading() {
    let day = date(2026, 4, 19);
    let at = local_datetime_at(day, TimeOfDay::from_hms(9, 15, 0).unwrap()).unwrap();
    assert_eq!(at.secs + at.offset as i64, day.days as i64 * 86400 + 9 * 3600 + 15 * 60);
    assert_eq!(local_datetime(day, 24), Err(ScheduleError::InvalidHour(24)));
    assert!(matches!(active_interval(day, 24, 24), Err(ScheduleError::InvalidHour(24))));
}

#[test]
fn schedule_error_messages() {
    assert_eq!(ScheduleError::InvalidHour(7).message(), "invalid local hour 07:00");
    assert_eq!(
        ScheduleError::DateOverflow(date(2026, 4, 19)).message(),
        "failed to advance date 2026-04-19"
    );
    assert_eq!(
        ScheduleError::NonexistentLocalTime(date(2026, 3, 8), TimeOfDay::from_hms(2, 30, 0).unwrap())
            .message(),
        "local time 2026-03-08 02:30 does not exist"
    );
    assert_eq!(
        ScheduleError::EmptyWindow(date(2026, 4, 19)).message(),
        "active window end must be after start for 2026-04-19"
    );
    assert_eq!(
        ScheduleError::Infeasible { count: 3, spacing_minutes: -5 }.message(),
        "schedule density is infeasible: window is too small for 3 pokes with -5 minutes minimum spacing"
    );
    assert_eq!(
        ScheduleError::Exhausted { count: 12, spacing_minutes: 45 }.message(),
        "schedule density is infeasible after 1000 attempts: window is too small for 12 pokes with 45 minutes minimum spacing"
    );
}

#[test]
fn tick_error_messages() {
    let failed = |code| {
        TickError::DeliveryFailed(DeliveryOutput {
            status_code: code,
            stdout: String::new(),
            stderr: String::new(),
        })
    };
    assert_eq!(failed(Some(1)).message(), "imsg failed with exit status 1");
    assert_eq!(failed(Some(-2)).message(), "imsg failed with exit status -2");
    assert_eq!(failed(None).message(), "imsg failed with exit status terminated by signal");
    assert_eq!(
        TickError::Send(SendError { message: "failed to execute /tmp/imsg".to_string() }).message(),
        "failed to execute /tmp/imsg"
    );
    assert_eq!(
        TickError::Schedule(ScheduleError::InvalidHour(24)).message(),
        "failed to generate today's schedule: invalid local hour 24:00"
    );
}

#[test]
fn plist_rejects_relative_paths_and_missing_user() {
    match render_plist("bin/poke", "/tmp/log", Some("alice")) {
        Err(e @ PlistError::RelativeBinary(_)) => {
            assert_eq!(e.message(), "binary path must be absolute: bin/poke")
        }
        other => panic!("unexpected {other:?}"),
    }
    match render_plist("/usr/local/bin/poke", "log", Some("alice")) {
        Err(e @ PlistError::RelativeLogDir(_)) => {
            assert_eq!(e.message(), "log directory must be absolute: log")
        }
        other => panic!("unexpected {other:?}"),
    }
    match default_bundle_id(None) {
        Err(e @ PlistError::UserNotSet) => {
            assert_eq!(e.message(), "USER must be set to render the LaunchAgent label")
        }
        other => panic!("unexpected {other:?}"),
    }
    match default_bundle_id(Some("  ")) {
        Err(e @ PlistError::UserEmpty) => {
            assert_eq!(e.message(), "USER must not be empty to render the LaunchAgent label")
        }
        other => panic!("unexpected {other:?}"),
    }
}

#[test]
fn bundle_id_trims_the_user_name() {
    assert_eq!(default_bundle_id(Some(" alice\n")).unwrap(), "com.alice.poke");
}

#[test]
fn plist_fills_every_placeholder_escaped() {
    let plist = render_plist("/opt/a&b/poke", "/tmp/<log>", Some("o'neil")).unwrap();
    assert!(plist.contains("<string>com.o&apos;neil.poke</string>"));
    assert!(plist.contains("<string>/opt/a&amp;b/poke</string>"));
    assert!(plist.contains("<string>/tmp/&lt;log&gt;/out.log</string>"));
    assert!(plist.contains("<string>/tmp/&lt;log&gt;/err.log</string>"));
    assert!(!plist.contains("{{"));
    assert_eq!(xml_escape("a&b<c>\"d'"), "a&amp;b&lt;c&gt;&quot;d&apos;");
}

#[test]
fn plist_path_sits_under_launch_agents() {
    assert_eq!(
        plist_path(Some("/Users/alice"), Some("alice")).unwrap(),
        "/Users/alice/Library/LaunchAgents/com.alice.poke.plist"
    );
    match plist_path(Some("relative"), Some("alice")) {
        Err(e @ PlistError::HomeNotAbsolute) => {
            assert_eq!(e.message(), "HOME must be set to an absolute path")
        }
        other => panic!("unexpected {other:?}"),
    }
    assert!(matches!(plist_path(None, Some("alice")), Err(PlistError::HomeNotAbsolute)));
}

#[test]
fn paths_resolve_from_home_and_xdg() {
    let paths = PokePaths::resolve(Some("/Users/alice"), Some("/x/config"), None).unwrap();
    assert_eq!(paths.config_file, "/x/config/poke/config.toml");
    assert_eq!(paths.state_file, "/Users/alice/.local/state/poke/state.json");
    assert_eq!(paths.lock_file, "/Users/alice/.local/state/poke/state.lock");
    assert_eq!(paths.log_dir, "/Users/alice/.local/state/poke/log");
    let err = PokePaths::resolve(None, None, None).unwrap_err();
    assert_eq!(err, PathsError::HomeNotSet);
    assert_eq!(err.message(), "HOME is not set");
    let err = PokePaths::resolve(Some("home"), None, None).unwrap_err();
    assert_eq!(err, PathsError::HomeNotAbsolute);
    assert_eq!(err.message(), "HOME must be an absolute path");
}

#[test]
fn temp_path_is_hidden_beside_the_state() {
    assert_eq!(temp_path("/a/b/state.json"), "/a/b/.state.json.tmp");
    assert_eq!(temp_path("/a/b/other.json"), "/a/b/.other.json.tmp");
}

#[test]
fn scheduled_times_accept_both_clocks() {
    let t = parse_scheduled_time("09:30").unwrap();
    assert_eq!((t.hour, t.minute), (9, 30));
    let t = parse_scheduled_time(" 3:00pm ").unwrap();
    assert_eq!((t.hour, t.minute), (15, 0));
    let t = parse_scheduled_time("3:15 PM").unwrap();
    assert_eq!((t.hour, t.minute), (15, 15));
    let t = parse_scheduled_time("12:05am").unwrap();
    assert_eq!((t.hour, t.minute), (0, 5));
    assert!(parse_scheduled_time("25:00").is_none());
    assert!(parse_scheduled_time("noon").is_none());
}

#[test]
fn decimal_text_matches_display() {
    assert_eq!(decimal_string(0), "0");
    assert_eq!(decimal_string(1234), "1234");
    assert_eq!(decimal_string(u64::MAX), u64::MAX.to_string());
    assert_eq!(signed_decimal_string(-45), "-45");
    assert_eq!(signed_decimal_string(i64::MIN), i64::MIN.to_string());
}

#[test]
fn text_helpers() {
    assert!(is_blank(" \t\n"));
    assert!(!is_blank(" x "));
    assert!(is_absolute("/a"));
    assert!(!is_absolute("a/b"));
    assert_eq!(join("/a", "b"), "/a/b");
    assert_eq!(join("/a/", "b"), "/a/b");
}

#[test]
fn message_templates_default_their_category() {
    assert_eq!(default_message_category(), "default");
    let m = MessageTemplate::from_parts("Drink water.", None);
    assert_eq!(m.category, "default");
    let m = MessageTemplate::from_parts("Drink water.", Some("hydration"));
    assert_eq!(m.category, "hydration");
    assert_eq!(PokeKind::Interval.as_str(), "interval");
    let r = RecentMessage::new("a", "b");
    assert_eq!(r.duplicate(), r);
}

#[test]
fn history_keeps_the_newest_in_order() {
    let mut history = Vec::new();
    for i in 0..(RECENT_HISTORY_LIMIT + 3) {
        record_recent_send(&mut history, RecentMessage::new(&format!("m{i}"), "c"));
    }
    assert_eq!(history.len(), RECENT_HISTORY_LIMIT);
    let names: Vec<String> = history.iter().map(|r| r.message.clone()).collect();
    let expected: Vec<String> = (3..(RECENT_HISTORY_LIMIT + 3)).map(|i| format!("m{i}")).collect();
    assert_eq!(names, expected);
}

#[test]
fn sorting_keeps_ties_in_order() {
    let a = ts("2026-04-19T10:00:00-04:00");
    let b = ts("2026-04-19T09:00:00-04:00");
    let sorted = sort_by_time(vec![
        pending("x", a, PokeKind::Random),
        pending("y", b, PokeKind::Scheduled),
        pending("z", a, PokeKind::Interval),
        pending("w", b, PokeKind::Random),
    ]);
    let ids: Vec<&str> = sorted.iter().map(|p| p.id.as_str()).collect();
    assert_eq!(ids, vec!["y", "w", "x", "z"]);
}

#[test]
fn selection_covers_the_pool_when_it_can() {
    let messages = vec![
        MessageTemplate::new("A", "x"),
        MessageTemplate::new("B", "x"),
        MessageTemplate::new("C", "y"),
    ];
    for seed in 0..50 {
        let mut rng = StdRng::seed_from_u64(seed);
        let picked = select_messages(&messages, 4, &vec![], &mut rng);
        assert_eq!(picked.len(), 4);
        for i in 0..messages.len() {
            assert!(picked.contains(&i), "seed {seed}: {picked:?}");
        }
        for w in picked.windows(2) {
            assert_ne!(w[0], w[1], "seed {seed}: {picked:?}");
        }
    }
    let mut rng = StdRng::seed_from_u64(0);
    assert!(select_messages(&messages, 0, &vec![], &mut rng).is_empty());
}

#[test]
fn show_lists_pending_and_last_sent() {
    let paths = PokePaths::from_bases("/c", "/s");
    let at = ts("2026-04-19T09:35:00-04:00");
    let sent_at = ts("2026-04-19T09:36:02-04:00");
    let state = State {
        last_schedule_date: Some(date(2026, 4, 19)),
        pending: vec![pending("2026-04-19-1", at, PokeKind::Random)],
        sent: vec![SentPoke {
            id: "2026-04-19-0".to_string(),
            scheduled_at: at,
            sent_at,
            message: "Drink water.".to_string(),
            category: "hydration".to_string(),
            kind: PokeKind::Scheduled,
        }],
        recent_history: vec![],
    };
    let text = show(&paths, &state);
    assert_eq!(
        text,
        "config: /c/poke/config.toml\n\
         state: /s/poke/state.json\n\
         logs: /s/poke/log\n\
         last_schedule_date: Some(2026-04-19)\n\
         pending:\n  \
         2026-04-19-1 2026-04-19 09:35:00 -04:00 random [default] message 2026-04-19-1\n\
         last_sent:\n  \
         2026-04-19-0 scheduled=2026-04-19 09:35:00 -04:00 sent=2026-04-19 09:36:02 -04:00 scheduled [hydration] Drink water.\n"
    );
    let empty = show(&paths, &State::new());
    assert!(empty.ends_with("last_schedule_date: None\npending:\nlast_sent:\n  none\n"));
}

struct CountingSender {
    calls: usize,
}

impl poke::delivery::Sender for CountingSender {
    fn send(&mut self, _message: &str) -> Result<DeliveryOutput, SendError> {
        self.calls += 1;
        Ok(DeliveryOutput { status_code: Some(0), stdout: String::new(), stderr: String::new() })
    }
}

#[test]
fn repeating_a_tick_at_the_same_instant_sends_nothing() {
    let config = default_config();
    let now = ts("2026-04-19T10:00:00-04:00");
    let mut state = State {
        last_schedule_date: Some(date(2026, 4, 19)),
        pending: vec![
            pending("a", ts("2026-04-19T09:00:00-04:00"), PokeKind::Random),
            pending("b", ts("2026-04-19T09:30:00-04:00"), PokeKind::Random),
            pending("c", ts("2026-04-19T11:00:00-04:00"), PokeKind::Random),
        ],
        sent: vec![],
        recent_history: vec![],
    };
    let mut sender = RecordingSender::new(CountingSender { calls: 0 });
    let first = poke::tick::process_tick(&config, &mut state, now, &mut sender).unwrap();
    assert!(first.sent_message);
    let after_first = state.clone();
    let second = poke::tick::process_tick(&config, &mut state, now, &mut sender).unwrap();
    assert!(!second.sent_message);
    assert!(!second.state_changed);
    assert_eq!(sender.inner.calls, 1);
    assert_eq!(state, after_first);
    assert_eq!(state.pending.len(), 1);
    assert_eq!(state.pending[0].id, "c");
    assert_eq!(state.recent_history, vec![RecentMessage::new("message a", "default")]);
}

#[test]
fn random_pokes_fall_one_per_equal_segment() {
    let config = default_config();
    let day = date(2026, 4, 19);
    for seed in 0..20 {
        let mut rng = poke::rng::DrawSource::new(StdRng::seed_from_u64(seed));
        let pokes = poke::schedule::generate_for_date(&config, &vec![], day, &mut rng).unwrap();
        let random: Vec<&PendingPoke> =
            pokes.iter().filter(|p| p.kind == PokeKind::Random).collect();
        assert_eq!(random.len(), 6);
        let start = local_datetime(day, 9).unwrap().secs;
        // Twelve hours cut into six segments of two hours.
        for (k, p) in random.iter().enumerate() {
            let offset = p.at.secs - start;
            assert!(offset >= k as i64 * 7200 && offset < (k as i64 + 1) * 7200, "seed {seed}");
        }
    }
}

#[test]
fn random_count_ignores_fixed_and_interval_pokes() {
    let mut config = default_config();
    config.schedule.random_per_day.jitter = 2;
    config.schedule.random_min_spacing_minutes = 30;
    config.scheduled.items =
        vec![poke::config::ScheduledMessage::new(TimeOfDay::from_hms(8, 0, 0).unwrap(), "Fixed.", "fixed")];
    config.intervals.items = vec![poke::config::IntervalMessage::new(240, "Water.", "hydration")];
    for seed in 0..50 {
        let mut rng = poke::rng::DrawSource::new(StdRng::seed_from_u64(seed));
        let pokes =
            poke::schedule::generate_for_date(&config, &vec![], date(2026, 4, 19), &mut rng).unwrap();
        let random: Vec<&PendingPoke> =
            pokes.iter().filter(|p| p.kind == PokeKind::Random).collect();
        assert!((4..=8).contains(&random.len()), "seed {seed}: {}", random.len());
        assert_eq!(pokes.iter().filter(|p| p.kind == PokeKind::Scheduled).count(), 1);
        assert_eq!(pokes.iter().filter(|p| p.kind == PokeKind::Interval).count(), 3);
        if random.len() >= config.random.items.len() {
            for m in &config.random.items {
                assert!(random.iter().any(|p| p.message == m.text && p.category == m.category));
            }
        }
    }
}

#[test]
fn least_recently_used_category_goes_first() {
    let messages = vec![
        MessageTemplate::new("A", "x"),
        MessageTemplate::new("B", "y"),
        MessageTemplate::new("C", "z"),
    ];
    let history = vec![RecentMessage::new("C", "z"), RecentMessage::new("A", "x")];
    for seed in 0..20 {
        let mut rng = StdRng::seed_from_u64(seed);
        // `y` was never sent, `z` one send ago, `x` is the last send.
        assert_eq!(select_messages(&messages, 1, &history, &mut rng), vec![1]);
        // Then `z`, used longer ago than `x`, and finally `x`.
        assert_eq!(select_messages(&messages, 3, &history, &mut rng), vec![1, 2, 0]);
    }
}

fn two_due_state() -> State {
    State {
        last_schedule_date: Some(date(2026, 4, 19)),
        pending: vec![
            pending("a", ts("2026-04-19T09:00:00-04:00"), PokeKind::Random),
            pending("b", ts("2026-04-19T09:30:00-04:00"), PokeKind::Random),
            pending("c", ts("2026-04-19T11:00:00-04:00"), PokeKind::Random),
        ],
        sent: vec![],
        recent_history: vec![],
    }
}

fn output(code: Option<i32>) -> DeliveryOutput {
    DeliveryOutput { status_code: code, stdout: String::new(), stderr: "boom".to_string() }
}

#[test]
fn finishing_a_send_follows_the_answer() {
    let now = ts("2026-04-19T10:00:00-04:00");

    let mut state = two_due_state();
    let r = poke::tick::finish_send(&mut state, 0, now, Ok(output(Some(0))));
    assert_eq!(r.unwrap(), poke::tick::TickOutcome { state_changed: true, sent_message: true });
    let ids: Vec<&str> = state.pending.iter().map(|p| p.id.as_str()).collect();
    assert_eq!(ids, vec!["c"]);
    assert_eq!(state.sent.len(), 1);
    assert_eq!(state.sent[0].id, "a");
    assert_eq!(state.sent[0].sent_at, now);
    assert_eq!(state.recent_history, vec![RecentMessage::new("message a", "default")]);

    for code in [Some(1), Some(-1), None] {
        let mut state = two_due_state();
        match poke::tick::finish_send(&mut state, 0, now, Ok(output(code))) {
            Err(TickError::DeliveryFailed(d)) => assert_eq!(d, output(code)),
            other => panic!("unexpected {other:?}"),
        }
        assert_eq!(state, two_due_state());
    }

    let mut state = two_due_state();
    let failure = SendError { message: "failed to execute /tmp/imsg".to_string() };
    match poke::tick::finish_send(&mut state, 0, now, Err(failure.clone())) {
        Err(TickError::Send(e)) => assert_eq!(e, failure),
        other => panic!("unexpected {other:?}"),
    }
    assert_eq!(state, two_due_state());
}

#[test]
fn applying_a_schedule_replaces_the_day_or_keeps_the_state() {
    let mut state = two_due_state();
    state.sent.push(SentPoke {
        id: "old".to_string(),
        scheduled_at: ts("2026-04-18T09:00:00-04:00"),
        sent_at: ts("2026-04-18T09:01:00-04:00"),
        message: "old".to_string(),
        category: "default".to_string(),
        kind: PokeKind::Random,
    });
    state.recent_history.push(RecentMessage::new("old", "default"));
    let before = state.clone();
    let err = poke::tick::apply_schedule(&mut state, date(2026, 4, 20), Err(ScheduleError::InvalidHour(24)));
    assert!(matches!(err, Err(TickError::Schedule(ScheduleError::InvalidHour(24)))));
    assert_eq!(state, before);
    let fresh = vec![pending("n", ts("2026-04-20T09:00:00-04:00"), PokeKind::Random)];
    poke::tick::apply_schedule(&mut state, date(2026, 4, 20), Ok(fresh.clone())).unwrap();
    assert_eq!(state.last_schedule_date, Some(date(2026, 4, 20)));
    assert_eq!(state.pending, fresh);
    assert!(state.sent.is_empty());
    assert_eq!(state.recent_history, before.recent_history);
}

#[test]
fn a_window_needs_its_end_after_its_start() {
    let day = date(2026, 4, 19);
    let start = ts("2026-04-19T09:00:00-04:00");
    let end = ts("2026-04-19T21:00:00-04:00");
    let iv = poke::schedule::window_from(day, start, end).unwrap();
    assert_eq!((iv.start, iv.end), (start, end));
    assert_eq!(
        poke::schedule::window_from(day, end, start).unwrap_err(),
        ScheduleError::EmptyWindow(day)
    );
    assert_eq!(
        poke::schedule::window_from(day, start, start).unwrap_err(),
        ScheduleError::EmptyWindow(day)
    );
}

#[test]
fn zero_spacing_never_runs_out_of_attempts() {
    let mut config = default_config();
    config.schedule.start_hour = 9;
    config.schedule.end_hour = 10;
    config.schedule.random_per_day.default = 30;
    config.schedule.random_min_spacing_minutes = 0;
    for seed in 0..20 {
        let mut rng = poke::rng::DrawSource::new(StdRng::seed_from_u64(seed));
        let pokes =
            poke::schedule::generate_for_date(&config, &vec![], date(2026, 4, 19), &mut rng).unwrap();
        assert_eq!(pokes.len(), 30);
    }
}

#[test]
fn every_message_appears_before_any_repeats() {
    let messages = vec![
        MessageTemplate::new("a", "x"),
        MessageTemplate::new("b", "x"),
        MessageTemplate::new("c", "y"),
    ];
    let history = vec![RecentMessage::new("a", "x")];
    for seed in 0..50 {
        let mut rng = StdRng::seed_from_u64(seed);
        let picked = select_messages(&messages, 4, &history, &mut rng);
        let mut first: Vec<usize> = picked[..3].to_vec();
        first.sort();
        assert_eq!(first, vec![0, 1, 2], "seed {seed}: {picked:?}");
    }
}

#[test]
fn count_follows_the_drawn_offset() {
    let mut per_day = RandomPerDay { default: 5, jitter: 2, weekday: WeekdayOverrides::none() };
    per_day.weekday.sunday = Some(3);
    assert_eq!(poke::schedule::count_for_offset(&per_day, Weekday::Mon, -2), 3);
    assert_eq!(poke::schedule::count_for_offset(&per_day, Weekday::Mon, 2), 7);
    assert_eq!(poke::schedule::count_for_offset(&per_day, Weekday::Sun, -2), 1);
    assert_eq!(poke::schedule::count_for_offset(&per_day, Weekday::Sun, -3), 1);
    assert_eq!(poke::schedule::count_for_offset(&per_day, Weekday::Sun, 0), 3);
}

#[test]
fn placing_draws_accepts_exactly_spaced_offsets() {
    let day = date(2026, 4, 19);
    let start = ts("2026-04-19T09:00:00-04:00");
    let end = ts("2026-04-19T21:00:00-04:00");
    let iv = poke::schedule::window_from(day, start, end).unwrap();
    let messages = vec![MessageTemplate::new("a", "x"), MessageTemplate::new("b", "y")];
    let mut rng = StdRng::seed_from_u64(1);
    // Two segments of six hours each.
    let close = vec![21_000i64, 21_600];
    assert!(poke::schedule::place_draws(&messages, 45, &vec![], day, &iv, &close, &mut rng).is_none());
    let apart = vec![18_900i64, 21_600];
    let pokes =
        poke::schedule::place_draws(&messages, 45, &vec![], day, &iv, &apart, &mut rng).unwrap();
    assert_eq!(pokes.len(), 2);
    assert_eq!(pokes[0].at.secs, start.secs + 18_900);
    assert_eq!(pokes[1].at.secs, start.secs + 21_600);
    assert_eq!(pokes[0].id, "2026-04-19-random-0");
    assert!(pokes.iter().all(|p| p.kind == PokeKind::Random));
}

#[test]
fn categories_alternate_when_the_day_is_shorter_than_the_pool() {
    let messages = vec![
        MessageTemplate::new("A", "x"),
        MessageTemplate::new("B", "y"),
        MessageTemplate::new("C", "y"),
        MessageTemplate::new("D", "y"),
    ];
    for seed in 0..50 {
        let mut rng = StdRng::seed_from_u64(seed);
        let picked = select_messages(&messages, 3, &vec![], &mut rng);
        for w in picked.windows(2) {
            assert_ne!(messages[w[0]].category, messages[w[1]].category, "seed {seed}: {picked:?}");
        }
    }
}

#[test]
fn hours_outside_the_clock_are_the_only_invalid_hours() {
    let day = date(2026, 4, 19);
    assert!(matches!(active_interval(day, 9, 25), Err(ScheduleError::InvalidHour(25))));
    assert!(matches!(active_interval(day, 30, 21), Err(ScheduleError::InvalidHour(30))));
    assert!(active_interval(day, 9, 21).is_ok());
    assert!(active_interval(day, 0, 24).is_ok());

    let mut config = default_config();
    config.schedule.end_hour = 25;
    let mut rng = poke::rng::DrawSource::new(StdRng::seed_from_u64(1));
    assert_eq!(
        poke::schedule::generate_for_date(&config, &vec![], day, &mut rng).unwrap_err(),
        ScheduleError::InvalidHour(25)
    );

    let mut config = default_config();
    config.schedule.start_hour = 24;
    let mut state = two_due_state();
    let before = state.clone();
    let now = ts("2026-04-20T10:00:00-04:00");
    match poke::tick::regenerate_today(&config, &mut state, now) {
        Err(TickError::Schedule(ScheduleError::InvalidHour(24))) => {}
        other => panic!("unexpected {other:?}"),
    }
    assert_eq!(state, before);
}
