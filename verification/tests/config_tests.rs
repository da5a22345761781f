use poke::config::{
    default_config, parse_scheduled_time, IntervalMessage, MessageTemplate, ScheduledMessage,
};
use poke::time::TimeOfDay;

fn time(hour: u32, minute: u32) -> TimeOfDay {
    TimeOfDay::from_hms(hour, minute, 0).unwrap()
}

#[test]
fn default_config_is_valid_without_existing_imsg_for_init() {
    default_config().validate(false, false).unwrap();
}

#[test]
fn string_only_random_items_default_to_default_category() {
    let items = vec![
        MessageTemplate::from_parts("Drink water.", None),
        MessageTemplate::from_parts("Stand up and stretch.", None),
    ];
    assert_eq!(
        items,
        vec![
            MessageTemplate::new("Drink water.", "default"),
            MessageTemplate::new("Stand up and stretch.", "default"),
        ]
    );
}

#[test]
fn mixed_random_item_shapes_parse_and_normalize() {
    let items = vec![
        MessageTemplate::from_parts("Drink water.", None),
        MessageTemplate::from_parts("Stand up and stretch.", Some("movement")),
        MessageTemplate::from_parts("Review notes.", None),
    ];
    assert_eq!(
        items,
        vec![
            MessageTemplate::new("Drink water.", "default"),
            MessageTemplate::new("Stand up and stretch.", "movement"),
            MessageTemplate::new("Review notes.", "default"),
        ]
    );
}

#[test]
fn scheduled_messages_parse_and_default_category() {
    assert_eq!(parse_scheduled_time("15:00"), Some(time(15, 0)));
    assert_eq!(parse_scheduled_time("3:30pm"), Some(time(15, 30)));
    let items = vec![
        ScheduledMessage::new(parse_scheduled_time("15:00").unwrap(), "Afternoon check-in.", "default"),
        ScheduledMessage::new(parse_scheduled_time("3:30pm").unwrap(), "Later check-in.", "fixed"),
    ];
    assert_eq!(
        items,
        vec![
            ScheduledMessage::new(time(15, 0), "Afternoon check-in.", "default"),
            ScheduledMessage::new(time(15, 30), "Later check-in.", "fixed"),
        ]
    );
}

#[test]
fn invalid_scheduled_time_is_rejected() {
    assert_eq!(parse_scheduled_time("noonish"), None);
}

#[test]
fn interval_messages_parse_and_default_category() {
    let item = IntervalMessage::new(60, "Drink water.", "default");
    assert_eq!(item.every_minutes, 60);
    assert_eq!(item.category, "default");
}

#[test]
fn infeasible_spacing_is_rejected() {
    let mut config = default_config();
    config.schedule.start_hour = 9;
    config.schedule.end_hour = 10;
    config.schedule.random_per_day.default = 3;
    config.schedule.random_min_spacing_minutes = 45;
    let err = config.validate(false, false).unwrap_err().message();
    assert!(err.contains("too small"));
}

#[test]
fn empty_random_category_is_rejected() {
    let mut config = default_config();
    config.random.items = vec![MessageTemplate::new("Drink water.", "")];
    let err = config.validate(false, false).unwrap_err().message();
    assert!(err.contains("categories must not be empty"));
}

#[test]
fn empty_scheduled_message_is_rejected() {
    let mut config = default_config();
    config.scheduled.items = vec![ScheduledMessage::new(time(15, 0), "", "fixed")];
    let err = config.validate(false, false).unwrap_err().message();
    assert!(err.contains("scheduled.items must not contain empty"));
}

#[test]
fn empty_scheduled_category_is_rejected() {
    let mut config = default_config();
    config.scheduled.items = vec![ScheduledMessage::new(time(15, 0), "Afternoon check-in.", "")];
    let err = config.validate(false, false).unwrap_err().message();
    assert!(err.contains("scheduled.items categories must not be empty"));
}

#[test]
fn zero_interval_minutes_is_rejected() {
    let mut config = default_config();
    config.intervals.items = vec![IntervalMessage::new(0, "Drink water.", "hydration")];
    let err = config.validate(false, false).unwrap_err().message();
    assert!(err.contains("every_minutes must be greater than 0"));
}

#[test]
fn too_small_interval_minutes_is_rejected() {
    let mut config = default_config();
    config.intervals.items = vec![IntervalMessage::new(4, "Drink water.", "hydration")];
    let err = config.validate(false, false).unwrap_err().message();
    assert!(err.contains("every_minutes must be at least 5"));
}

#[test]
fn empty_interval_message_is_rejected() {
    let mut config = default_config();
    config.intervals.items = vec![IntervalMessage::new(60, "", "hydration")];
    let err = config.validate(false, false).unwrap_err().message();
    assert!(err.contains("intervals.items must not contain empty"));
}

#[test]
fn empty_interval_category_is_rejected() {
    let mut config = default_config();
    config.intervals.items = vec![IntervalMessage::new(60, "Drink water.", "")];
    let err = config.validate(false, false).unwrap_err().message();
    assert!(err.contains("intervals.items categories must not be empty"));
}

#[test]
fn random_per_day_minimum_form_parses() {
    let config = default_config();
    assert_eq!(config.schedule.random_per_day.default, 6);
    assert_eq!(config.schedule.random_per_day.jitter, 0);
    assert!(config.schedule.random_per_day.weekday.is_empty());
}

#[test]
fn zero_random_per_day_default_is_rejected() {
    let mut config = default_config();
    config.schedule.random_per_day.default = 0;
    let err = config.validate(false, false).unwrap_err().message();
    assert!(err.contains("random_per_day.default must be greater than 0"));
}

#[test]
fn zero_weekday_override_is_rejected() {
    let mut config = default_config();
    config.schedule.random_per_day.weekday.saturday = Some(0);
    let err = config.validate(false, false).unwrap_err().message();
    assert!(err.contains("weekday overrides must be greater than 0"));
}

#[test]
fn density_validation_uses_max_possible_count() {
    let mut config = default_config();
    // window: 9..21 = 720 minutes
    // with default=6 + jitter=20 + spacing=45 -> 25 pokes, 24 gaps * 45 = 1080 >= 720
    config.schedule.random_per_day.default = 6;
    config.schedule.random_per_day.jitter = 20;
    config.schedule.random_min_spacing_minutes = 45;
    let err = config.validate(false, false).unwrap_err().message();
    assert!(err.contains("too small"), "error was: {err}");
}
