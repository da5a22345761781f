//! The configuration model and its validation rules.

use vstd::prelude::*;
use vstd::string::*;

use crate::text::{
    absolute, ascii_lower, blank, decimal, decimal_string, is_absolute, is_blank, replace, replaced,
    signed_decimal, signed_decimal_string, to_ascii_lowercase, trim, trim_spec,
};
use crate::time::{parse_time, parsed_time, TimeOfDay, Weekday};

verus! {

/// The category given to messages that name none.
pub open spec fn default_category_text() -> Seq<char> {
    "default"@
}

/// A fresh copy of the default category name.
pub fn default_message_category() -> (r: String)
    ensures
        r@ == default_category_text(),
{
    proof {
        reveal_strlit("default");
    }
    String::from_str("default")
}

/// Where and how messages are delivered.
#[derive(Clone, Debug, PartialEq, Eq)]
pub struct DeliveryConfig {
    pub destination: String,
    pub imsg_path: String,
}

/// Per-weekday overrides of the daily random count.
#[derive(Clone, Copy, Debug, PartialEq, Eq, Structural)]
pub struct WeekdayOverrides {
    pub monday: Option<usize>,
    pub tuesday: Option<usize>,
    pub wednesday: Option<usize>,
    pub thursday: Option<usize>,
    pub friday: Option<usize>,
    pub saturday: Option<usize>,
    pub sunday: Option<usize>,
}

/// The value of an option as a sequence of zero or one elements.
pub open spec fn present(o: Option<usize>) -> Seq<usize> {
    match o {
        Some(v) => seq![v],
        None => Seq::empty(),
    }
}

impl WeekdayOverrides {
    /// The seven overrides, Monday first.
    pub open spec fn by_day(self) -> Seq<Option<usize>> {
        seq![
            self.monday,
            self.tuesday,
            self.wednesday,
            self.thursday,
            self.friday,
            self.saturday,
            self.sunday,
        ]
    }

    pub fn none() -> (r: WeekdayOverrides)
        ensures
            r.is_empty_spec(),
    {
        WeekdayOverrides {
            monday: None,
            tuesday: None,
            wednesday: None,
            thursday: None,
            friday: None,
            saturday: None,
            sunday: None,
        }
    }

    pub open spec fn is_empty_spec(self) -> bool {
        &&& self.monday is None
        &&& self.tuesday is None
        &&& self.wednesday is None
        &&& self.thursday is None
        &&& self.friday is None
        &&& self.saturday is None
        &&& self.sunday is None
    }

    /// No weekday has an override.
    pub fn is_empty(&self) -> (r: bool)
        ensures
            r == self.is_empty_spec(),
    {
        self.monday.is_none() && self.tuesday.is_none() && self.wednesday.is_none()
            && self.thursday.is_none() && self.friday.is_none() && self.saturday.is_none()
            && self.sunday.is_none()
    }

    pub open spec fn get_spec(self, weekday: Weekday) -> Option<usize> {
        match weekday {
            Weekday::Mon => self.monday,
            Weekday::Tue => self.tuesday,
            Weekday::Wed => self.wednesday,
            Weekday::Thu => self.thursday,
            Weekday::Fri => self.friday,
            Weekday::Sat => self.saturday,
            Weekday::Sun => self.sunday,
        }
    }

    /// The override for a weekday.
    pub fn get(&self, weekday: Weekday) -> (r: Option<usize>)
        ensures
            r == self.get_spec(weekday),
            r == self.by_day()[weekday.index()],
    {
        match weekday {
            Weekday::Mon => self.monday,
            Weekday::Tue => self.tuesday,
            Weekday::Wed => self.wednesday,
            Weekday::Thu => self.thursday,
            Weekday::Fri => self.friday,
            Weekday::Sat => self.saturday,
            Weekday::Sun => self.sunday,
        }
    }

    /// The overrides that are set, Monday first.
    pub open spec fn values_spec(self) -> Seq<usize> {
        present(self.monday) + present(self.tuesday) + present(self.wednesday) + present(
            self.thursday,
        ) + present(self.friday) + present(self.saturday) + present(self.sunday)
    }

    /// The overrides that are set, Monday first.
    pub fn values(&self) -> (r: Vec<usize>)
        ensures
            r@ == self.values_spec(),
    {
        let all = [
            self.monday,
            self.tuesday,
            self.wednesday,
            self.thursday,
            self.friday,
            self.saturday,
            self.sunday,
        ];
        let ghost parts = seq![
            self.monday,
            self.tuesday,
            self.wednesday,
            self.thursday,
            self.friday,
            self.saturday,
            self.sunday,
        ];
        let mut r: Vec<usize> = Vec::new();
        let mut i: usize = 0;
        while i < 7
            invariant
                i <= 7,
                all@ == parts,
                r@ == present_prefix(parts, i as int),
            decreases 7 - i,
        {
            match all[i] {
                Some(v) => r.push(v),
                None => {},
            }
            proof {
                assert(present_prefix(parts, i + 1) == present_prefix(parts, i as int) + present(
                    parts[i as int],
                ));
            }
            i += 1;
        }
        proof {
            assert(present_prefix(parts, 7) =~= self.values_spec()) by {
                reveal_with_fuel(present_prefix, 8);
            }
        }
        r
    }
}

/// The set values among the first `k` options.
pub open spec fn present_prefix(parts: Seq<Option<usize>>, k: int) -> Seq<usize>
    decreases k,
{
    if k <= 0 {
        Seq::empty()
    } else {
        present_prefix(parts, k - 1) + present(parts[k - 1])
    }
}

/// `n` kept at most `usize::MAX`, as `saturating_add` keeps a sum.
pub open spec fn saturated(n: int) -> int {
    if n > usize::MAX {
        usize::MAX as int
    } else {
        n
    }
}

/// `seq_max` is at least `init` and every element, and is `init` or one of
/// the elements.
proof fn lemma_seq_max_bounds(s: Seq<usize>, init: usize)
    ensures
        seq_max(s, init) >= init,
        forall|i: int| 0 <= i < s.len() ==> seq_max(s, init) >= #[trigger] s[i],
        seq_max(s, init) == init || s.contains(seq_max(s, init)),
    decreases s.len(),
{
    if s.len() > 0 {
        let t = s.drop_last();
        lemma_seq_max_bounds(t, init);
        assert forall|i: int| 0 <= i < s.len() implies seq_max(s, init) >= #[trigger] s[i] by {
            if i < s.len() - 1 {
                assert(s[i] == t[i]);
            }
        }
        if seq_max(s, init) != init {
            if seq_max(s, init) == s.last() {
                assert(s[s.len() - 1] == s.last());
            } else {
                let j = choose|j: int| 0 <= j < t.len() && t[j] == seq_max(t, init);
                assert(s[j] == t[j]);
            }
        }
    }
}

/// The overrides that are set are exactly the values of `values_spec`.
proof fn lemma_values_are_set_overrides(o: WeekdayOverrides)
    ensures
        forall|i: int|
            0 <= i < 7 && #[trigger] o.by_day()[i] is Some ==> o.values_spec().contains(
                o.by_day()[i].unwrap(),
            ),
        forall|x: usize|
            #[trigger] o.values_spec().contains(x) ==> exists|i: int|
                0 <= i < 7 && #[trigger] o.by_day()[i] == Some(x),
{
    let d = o.by_day();
    assert(present_prefix(d, 7) =~= o.values_spec()) by {
        reveal_with_fuel(present_prefix, 8);
    }
    assert forall|i: int| 0 <= i < 7 && #[trigger] d[i] is Some implies o.values_spec().contains(
        d[i].unwrap(),
    ) by {
        lemma_present_prefix_has(d, 7, i);
    }
    assert forall|x: usize| #[trigger] o.values_spec().contains(x) implies exists|i: int|
        0 <= i < 7 && #[trigger] d[i] == Some(x) by {
        let k = choose|k: int| 0 <= k < o.values_spec().len() && o.values_spec()[k] == x;
        lemma_present_prefix_source(d, 7, k);
    }
}

/// A set option among the first `n` is an element of `present_prefix`.
proof fn lemma_present_prefix_has(parts: Seq<Option<usize>>, n: int, i: int)
    requires
        0 <= i < n <= parts.len(),
        parts[i] is Some,
    ensures
        present_prefix(parts, n).contains(parts[i].unwrap()),
    decreases n,
{
    let prev = present_prefix(parts, n - 1);
    if i < n - 1 {
        lemma_present_prefix_has(parts, n - 1, i);
        let k = choose|k: int| 0 <= k < prev.len() && prev[k] == parts[i].unwrap();
        assert(present_prefix(parts, n)[k] == prev[k]);
    } else {
        assert(present_prefix(parts, n)[prev.len() as int] == parts[i].unwrap());
    }
}

/// An element of `present_prefix(parts, n)` comes from one of the first `n`
/// options.
proof fn lemma_present_prefix_source(parts: Seq<Option<usize>>, n: int, k: int)
    requires
        0 <= n <= parts.len(),
        0 <= k < present_prefix(parts, n).len(),
    ensures
        exists|i: int| 0 <= i < n && #[trigger] parts[i] == Some(present_prefix(parts, n)[k]),
    decreases n,
{
    let prev = present_prefix(parts, n - 1);
    if k < prev.len() {
        lemma_present_prefix_source(parts, n - 1, k);
        assert(present_prefix(parts, n)[k] == prev[k]);
    } else {
        assert(parts[n - 1] == Some(present_prefix(parts, n)[k]));
    }
}

/// The largest of `init` and the elements of `s`.
pub open spec fn seq_max(s: Seq<usize>, init: usize) -> usize
    decreases s.len(),
{
    if s.len() == 0 {
        init
    } else {
        let rest = seq_max(s.drop_last(), init);
        if s.last() > rest {
            s.last()
        } else {
            rest
        }
    }
}

/// How many random pokes a day gets: a baseline, per-weekday overrides of
/// it, and a symmetric jitter.
#[derive(Clone, Debug, PartialEq, Eq)]
pub struct RandomPerDay {
    pub default: usize,
    pub jitter: usize,
    pub weekday: WeekdayOverrides,
}

impl RandomPerDay {
    pub open spec fn baseline_spec(self, weekday: Weekday) -> usize {
        match self.weekday.get_spec(weekday) {
            Some(v) => v,
            None => self.default,
        }
    }

    /// The weekday's override, or the default.
    pub fn baseline_for(&self, weekday: Weekday) -> (r: usize)
        ensures
            r == self.baseline_spec(weekday),
            r == match self.weekday.by_day()[weekday.index()] {
                Some(v) => v,
                None => self.default,
            },
    {
        match self.weekday.get(weekday) {
            Some(v) => v,
            None => self.default,
        }
    }

    /// The largest baseline plus the jitter, saturating.
    pub open spec fn max_possible_spec(self) -> usize {
        let m = seq_max(self.weekday.values_spec(), self.default);
        if m + self.jitter > usize::MAX {
            usize::MAX
        } else {
            (m + self.jitter) as usize
        }
    }

    /// The largest count any day can get.
    pub fn max_possible(&self) -> (r: usize)
        ensures
            r == self.max_possible_spec(),
            r >= saturated(self.default + self.jitter),
            forall|i: int|
                0 <= i < 7 && #[trigger] self.weekday.by_day()[i] is Some ==> r >= saturated(
                    self.weekday.by_day()[i].unwrap() + self.jitter,
                ),
            r == saturated(self.default + self.jitter) || exists|i: int|
                0 <= i < 7 && #[trigger] self.weekday.by_day()[i] is Some && r == saturated(
                    self.weekday.by_day()[i].unwrap() + self.jitter,
                ),
    {
        let values = self.weekday.values();
        let mut best = self.default;
        let mut i: usize = 0;
        while i < values.len()
            invariant
                i <= values@.len(),
                best == seq_max(values@.take(i as int), self.default),
            decreases values@.len() - i,
        {
            assert(values@.take(i + 1).drop_last() =~= values@.take(i as int));
            if values[i] > best {
                best = values[i];
            }
            i += 1;
        }
        assert(values@.take(values@.len() as int) =~= values@);
        proof {
            lemma_seq_max_bounds(values@, self.default);
            lemma_values_are_set_overrides(self.weekday);
            let d = self.weekday.by_day();
            assert forall|i: int| 0 <= i < 7 && #[trigger] d[i] is Some implies best >= d[i].unwrap() by {
                let k = choose|k: int| 0 <= k < values@.len() && values@[k] == d[i].unwrap();
            }
            if best != self.default {
                assert(values@.contains(best));
                let i = choose|i: int| 0 <= i < 7 && #[trigger] d[i] == Some(best);
                assert(d[i] is Some);
            }
        }
        best.saturating_add(self.jitter)
    }
}

/// The baseline of a calendar day is the override named after that day's
/// weekday, counting 1970-01-01 as a Thursday, or the default when that
/// weekday has none.
pub proof fn lemma_baseline_of_date(per_day: RandomPerDay, date: crate::time::LocalDate)
    ensures
        per_day.baseline_spec(date.weekday_spec()) == match per_day.weekday.by_day()[(date.days + 3)
            % 7] {
            Some(v) => v,
            None => per_day.default,
        },
{
    let i = (date.days + 3) % 7;
    assert(0 <= i < 7);
}

/// The daily window and the rules for random pokes.
#[derive(Clone, Debug, PartialEq, Eq)]
pub struct ScheduleConfig {
    pub start_hour: u32,
    pub end_hour: u32,
    pub random_per_day: RandomPerDay,
    pub random_min_spacing_minutes: i64,
}

/// One message of the random pool.
#[derive(Clone, Debug, PartialEq, Eq)]
pub struct MessageTemplate {
    pub text: String,
    pub category: String,
}

impl MessageTemplate {
    pub fn new(text: &str, category: &str) -> (r: MessageTemplate)
        ensures
            r.text@ == text@,
            r.category@ == category@,
    {
        MessageTemplate { text: String::from_str(text), category: String::from_str(category) }
    }

    /// A pool entry written either as a plain string or as a table with an
    /// optional category: without one it gets the default category.
    pub fn from_parts(text: &str, category: Option<&str>) -> (r: MessageTemplate)
        ensures
            r.text@ == text@,
            r.category@ == (match category {
                Some(c) => c@,
                None => default_category_text(),
            }),
    {
        match category {
            Some(c) => MessageTemplate::new(text, c),
            None => MessageTemplate { text: String::from_str(text), category: default_message_category() },
        }
    }
}

/// The random message pool.
#[derive(Clone, Debug, PartialEq, Eq)]
pub struct RandomConfig {
    pub items: Vec<MessageTemplate>,
}

/// A message sent every day at a fixed wall-clock time.
#[derive(Clone, Debug, PartialEq, Eq)]
pub struct ScheduledMessage {
    pub time: TimeOfDay,
    pub text: String,
    pub category: String,
}

impl ScheduledMessage {
    pub fn new(time: TimeOfDay, text: &str, category: &str) -> (r: ScheduledMessage)
        ensures
            r.time == time,
            r.text@ == text@,
            r.category@ == category@,
    {
        ScheduledMessage { time, text: String::from_str(text), category: String::from_str(category) }
    }
}

/// A message repeated through the active window.
#[derive(Clone, Debug, PartialEq, Eq)]
pub struct IntervalMessage {
    pub every_minutes: u32,
    pub text: String,
    pub category: String,
}

impl IntervalMessage {
    pub fn new(every_minutes: u32, text: &str, category: &str) -> (r: IntervalMessage)
        ensures
            r.every_minutes == every_minutes,
            r.text@ == text@,
            r.category@ == category@,
    {
        IntervalMessage {
            every_minutes,
            text: String::from_str(text),
            category: String::from_str(category),
        }
    }
}

/// The fixed-time messages.
#[derive(Clone, Debug, PartialEq, Eq)]
pub struct ScheduledConfig {
    pub items: Vec<ScheduledMessage>,
}

impl ScheduledConfig {
    pub fn is_empty(&self) -> (r: bool)
        ensures
            r == (self.items@.len() == 0),
    {
        self.items.len() == 0
    }
}

/// The repeating messages.
#[derive(Clone, Debug, PartialEq, Eq)]
pub struct IntervalsConfig {
    pub items: Vec<IntervalMessage>,
}

impl IntervalsConfig {
    pub fn is_empty(&self) -> (r: bool)
        ensures
            r == (self.items@.len() == 0),
    {
        self.items.len() == 0
    }
}

/// The whole configuration.
#[derive(Clone, Debug, PartialEq, Eq)]
pub struct Config {
    pub delivery: DeliveryConfig,
    pub schedule: ScheduleConfig,
    pub random: RandomConfig,
    pub scheduled: ScheduledConfig,
    pub intervals: IntervalsConfig,
}

/// The rule a configuration breaks.
#[derive(Debug)]
pub enum ConfigError {
    EmptyDestination,
    RelativeImsgPath,
    MissingImsgPath(String),
    StartHourOutOfRange,
    EndHourOutOfRange,
    EndNotAfterStart,
    ZeroDefaultCount,
    ZeroWeekdayOverride,
    NegativeSpacing,
    NoRandomItems,
    EmptyRandomMessage,
    EmptyRandomCategory,
    EmptyScheduledMessage,
    EmptyScheduledCategory,
    ZeroIntervalMinutes,
    ShortIntervalMinutes,
    EmptyIntervalMessage,
    EmptyIntervalCategory,
    WindowTooSmall { worst_case: usize, spacing_minutes: i64 },
}

/// The rule a configuration breaks, without the path text.
#[derive(Clone, Copy, Debug, PartialEq, Eq, Structural)]
pub enum Violation {
    EmptyDestination,
    RelativeImsgPath,
    MissingImsgPath,
    StartHourOutOfRange,
    EndHourOutOfRange,
    EndNotAfterStart,
    ZeroDefaultCount,
    ZeroWeekdayOverride,
    NegativeSpacing,
    NoRandomItems,
    EmptyRandomMessage,
    EmptyRandomCategory,
    EmptyScheduledMessage,
    EmptyScheduledCategory,
    ZeroIntervalMinutes,
    ShortIntervalMinutes,
    EmptyIntervalMessage,
    EmptyIntervalCategory,
    WindowTooSmall { worst_case: usize, spacing_minutes: i64 },
}

impl ConfigError {
    pub open spec fn violation(self) -> Violation {
        match self {
            ConfigError::EmptyDestination => Violation::EmptyDestination,
            ConfigError::RelativeImsgPath => Violation::RelativeImsgPath,
            ConfigError::MissingImsgPath(_) => Violation::MissingImsgPath,
            ConfigError::StartHourOutOfRange => Violation::StartHourOutOfRange,
            ConfigError::EndHourOutOfRange => Violation::EndHourOutOfRange,
            ConfigError::EndNotAfterStart => Violation::EndNotAfterStart,
            ConfigError::ZeroDefaultCount => Violation::ZeroDefaultCount,
            ConfigError::ZeroWeekdayOverride => Violation::ZeroWeekdayOverride,
            ConfigError::NegativeSpacing => Violation::NegativeSpacing,
            ConfigError::NoRandomItems => Violation::NoRandomItems,
            ConfigError::EmptyRandomMessage => Violation::EmptyRandomMessage,
            ConfigError::EmptyRandomCategory => Violation::EmptyRandomCategory,
            ConfigError::EmptyScheduledMessage => Violation::EmptyScheduledMessage,
            ConfigError::EmptyScheduledCategory => Violation::EmptyScheduledCategory,
            ConfigError::ZeroIntervalMinutes => Violation::ZeroIntervalMinutes,
            ConfigError::ShortIntervalMinutes => Violation::ShortIntervalMinutes,
            ConfigError::EmptyIntervalMessage => Violation::EmptyIntervalMessage,
            ConfigError::EmptyIntervalCategory => Violation::EmptyIntervalCategory,
            ConfigError::WindowTooSmall { worst_case, spacing_minutes } => Violation::WindowTooSmall {
                worst_case,
                spacing_minutes,
            },
        }
    }
}

/// Gaps between the most pokes a day can get, as `i64` saturates it.
pub open spec fn gap_count(schedule: ScheduleConfig) -> int {
    let worst = schedule.random_per_day.max_possible_spec();
    let gaps = if worst == 0 {
        0
    } else {
        worst - 1
    };
    if gaps > i64::MAX {
        i64::MAX as int
    } else {
        gaps
    }
}

/// The window cannot hold the most pokes a day can get at the minimum
/// spacing: the gaps between them fill the window or more.
pub open spec fn window_too_small(schedule: ScheduleConfig) -> bool {
    schedule.random_min_spacing_minutes > 0 && gap_count(schedule)
        * schedule.random_min_spacing_minutes >= (schedule.end_hour - schedule.start_hour) * 60
}

/// Checks that the window holds the most random pokes a day can get at the
/// minimum spacing.
pub fn validate_density(schedule: &ScheduleConfig) -> (r: Result<(), ConfigError>)
    requires
        schedule.start_hour <= schedule.end_hour,
    ensures
        r is Ok <==> !window_too_small(*schedule),
        r matches Err(e) ==> e.violation() == (Violation::WindowTooSmall {
            worst_case: schedule.random_per_day.max_possible_spec(),
            spacing_minutes: schedule.random_min_spacing_minutes,
        }),
{
    let window_minutes: i128 = ((schedule.end_hour - schedule.start_hour) as i128) * 60;
    let worst_case = schedule.random_per_day.max_possible();
    let gaps = worst_case.saturating_sub(1);
    let gap_count: i128 = if gaps as u128 > i64::MAX as u128 {
        i64::MAX as i128
    } else {
        gaps as i128
    };
    let spacing = schedule.random_min_spacing_minutes;
    assert(0 <= gap_count <= i64::MAX);
    if spacing > 0 {
        assert(gap_count * (spacing as i128) <= i64::MAX * i64::MAX) by (nonlinear_arith)
            requires
                0 <= gap_count <= i64::MAX,
                0 < spacing <= i64::MAX,
        ;
    }
    if spacing > 0 && gap_count * (spacing as i128) >= window_minutes {
        return Err(ConfigError::WindowTooSmall { worst_case, spacing_minutes: spacing });
    }
    Ok(())
}

/// Some message text of the random pool is blank.
pub open spec fn some_blank_text(items: Seq<MessageTemplate>) -> bool {
    exists|i: int| 0 <= i < items.len() && blank(#[trigger] items[i].text@)
}

pub open spec fn some_blank_category(items: Seq<MessageTemplate>) -> bool {
    exists|i: int| 0 <= i < items.len() && blank(#[trigger] items[i].category@)
}

pub open spec fn some_blank_scheduled_text(items: Seq<ScheduledMessage>) -> bool {
    exists|i: int| 0 <= i < items.len() && blank(#[trigger] items[i].text@)
}

pub open spec fn some_blank_scheduled_category(items: Seq<ScheduledMessage>) -> bool {
    exists|i: int| 0 <= i < items.len() && blank(#[trigger] items[i].category@)
}

pub open spec fn some_interval_below(items: Seq<IntervalMessage>, minutes: int) -> bool {
    exists|i: int| 0 <= i < items.len() && #[trigger] items[i].every_minutes < minutes
}

pub open spec fn some_blank_interval_text(items: Seq<IntervalMessage>) -> bool {
    exists|i: int| 0 <= i < items.len() && blank(#[trigger] items[i].text@)
}

pub open spec fn some_blank_interval_category(items: Seq<IntervalMessage>) -> bool {
    exists|i: int| 0 <= i < items.len() && blank(#[trigger] items[i].category@)
}

/// The first rule, in order, that the configuration breaks; `imsg_exists`
/// says whether `delivery.imsg_path` names an existing file.
pub open spec fn first_violation(
    config: Config,
    require_imsg_exists: bool,
    imsg_exists: bool,
) -> Option<Violation> {
    let s = config.schedule;
    if blank(config.delivery.destination@) {
        Some(Violation::EmptyDestination)
    } else if !absolute(config.delivery.imsg_path@) {
        Some(Violation::RelativeImsgPath)
    } else if require_imsg_exists && !imsg_exists {
        Some(Violation::MissingImsgPath)
    } else if s.start_hour >= 24 {
        Some(Violation::StartHourOutOfRange)
    } else if s.end_hour > 24 {
        Some(Violation::EndHourOutOfRange)
    } else if s.end_hour <= s.start_hour {
        Some(Violation::EndNotAfterStart)
    } else if s.random_per_day.default == 0 {
        Some(Violation::ZeroDefaultCount)
    } else if s.random_per_day.weekday.values_spec().contains(0) {
        Some(Violation::ZeroWeekdayOverride)
    } else if s.random_min_spacing_minutes < 0 {
        Some(Violation::NegativeSpacing)
    } else if config.random.items@.len() == 0 {
        Some(Violation::NoRandomItems)
    } else if some_blank_text(config.random.items@) {
        Some(Violation::EmptyRandomMessage)
    } else if some_blank_category(config.random.items@) {
        Some(Violation::EmptyRandomCategory)
    } else if some_blank_scheduled_text(config.scheduled.items@) {
        Some(Violation::EmptyScheduledMessage)
    } else if some_blank_scheduled_category(config.scheduled.items@) {
        Some(Violation::EmptyScheduledCategory)
    } else if some_interval_below(config.intervals.items@, 1) {
        Some(Violation::ZeroIntervalMinutes)
    } else if some_interval_below(config.intervals.items@, 5) {
        Some(Violation::ShortIntervalMinutes)
    } else if some_blank_interval_text(config.intervals.items@) {
        Some(Violation::EmptyIntervalMessage)
    } else if some_blank_interval_category(config.intervals.items@) {
        Some(Violation::EmptyIntervalCategory)
    } else if window_too_small(s) {
        Some(
            Violation::WindowTooSmall {
                worst_case: s.random_per_day.max_possible_spec(),
                spacing_minutes: s.random_min_spacing_minutes,
            },
        )
    } else {
        None
    }
}

/// All the rules hold.
pub open spec fn valid(config: Config, require_imsg_exists: bool, imsg_exists: bool) -> bool {
    first_violation(config, require_imsg_exists, imsg_exists) is None
}

fn any_blank_text(items: &Vec<MessageTemplate>) -> (r: bool)
    ensures
        r == some_blank_text(items@),
{
    let mut i: usize = 0;
    while i < items.len()
        invariant
            i <= items@.len(),
            forall|j: int| 0 <= j < i ==> !blank(#[trigger] items@[j].text@),
        decreases items@.len() - i,
    {
        if is_blank(items[i].text.as_str()) {
            return true;
        }
        i += 1;
    }
    false
}

fn any_blank_category(items: &Vec<MessageTemplate>) -> (r: bool)
    ensures
        r == some_blank_category(items@),
{
    let mut i: usize = 0;
    while i < items.len()
        invariant
            i <= items@.len(),
            forall|j: int| 0 <= j < i ==> !blank(#[trigger] items@[j].category@),
        decreases items@.len() - i,
    {
        if is_blank(items[i].category.as_str()) {
            return true;
        }
        i += 1;
    }
    false
}

fn any_blank_scheduled(items: &Vec<ScheduledMessage>, category: bool) -> (r: bool)
    ensures
        !category ==> r == some_blank_scheduled_text(items@),
        category ==> r == some_blank_scheduled_category(items@),
{
    let mut i: usize = 0;
    while i < items.len()
        invariant
            i <= items@.len(),
            !category ==> forall|j: int| 0 <= j < i ==> !blank(#[trigger] items@[j].text@),
            category ==> forall|j: int| 0 <= j < i ==> !blank(#[trigger] items@[j].category@),
        decreases items@.len() - i,
    {
        let b = if category {
            is_blank(items[i].category.as_str())
        } else {
            is_blank(items[i].text.as_str())
        };
        if b {
            return true;
        }
        i += 1;
    }
    false
}

fn any_blank_interval(items: &Vec<IntervalMessage>, category: bool) -> (r: bool)
    ensures
        !category ==> r == some_blank_interval_text(items@),
        category ==> r == some_blank_interval_category(items@),
{
    let mut i: usize = 0;
    while i < items.len()
        invariant
            i <= items@.len(),
            !category ==> forall|j: int| 0 <= j < i ==> !blank(#[trigger] items@[j].text@),
            category ==> forall|j: int| 0 <= j < i ==> !blank(#[trigger] items@[j].category@),
        decreases items@.len() - i,
    {
        let b = if category {
            is_blank(items[i].category.as_str())
        } else {
            is_blank(items[i].text.as_str())
        };
        if b {
            return true;
        }
        i += 1;
    }
    false
}

fn any_interval_below(items: &Vec<IntervalMessage>, minutes: u32) -> (r: bool)
    ensures
        r == some_interval_below(items@, minutes as int),
{
    let mut i: usize = 0;
    while i < items.len()
        invariant
            i <= items@.len(),
            forall|j: int| 0 <= j < i ==> !(#[trigger] items@[j].every_minutes < minutes),
        decreases items@.len() - i,
    {
        if items[i].every_minutes < minutes {
            return true;
        }
        i += 1;
    }
    false
}

fn contains_zero(values: &Vec<usize>) -> (r: bool)
    ensures
        r == values@.contains(0),
{
    let mut i: usize = 0;
    while i < values.len()
        invariant
            i <= values@.len(),
            forall|j: int| 0 <= j < i ==> #[trigger] values@[j] != 0,
        decreases values@.len() - i,
    {
        if values[i] == 0 {
            assert(values@[i as int] == 0);
            return true;
        }
        i += 1;
    }
    false
}

impl Config {
    /// Checks the configuration's rules in order and reports the first one
    /// broken. `imsg_exists` says whether `delivery.imsg_path` names an
    /// existing file; it is consulted only when `require_imsg_exists` holds.
    pub fn validate(&self, require_imsg_exists: bool, imsg_exists: bool) -> (r: Result<(), ConfigError>)
        ensures
            r is Ok <==> valid(*self, require_imsg_exists, imsg_exists),
            r matches Err(e) ==> first_violation(*self, require_imsg_exists, imsg_exists) == Some(
                e.violation(),
            ),
            r matches Err(ConfigError::MissingImsgPath(p)) ==> p@ == self.delivery.imsg_path@,
    {
        let s = &self.schedule;
        if is_blank(self.delivery.destination.as_str()) {
            return Err(ConfigError::EmptyDestination);
        }
        if !is_absolute(self.delivery.imsg_path.as_str()) {
            return Err(ConfigError::RelativeImsgPath);
        }
        if require_imsg_exists && !imsg_exists {
            return Err(ConfigError::MissingImsgPath(self.delivery.imsg_path.clone()));
        }
        if s.start_hour >= 24 {
            return Err(ConfigError::StartHourOutOfRange);
        }
        if s.end_hour > 24 {
            return Err(ConfigError::EndHourOutOfRange);
        }
        if s.end_hour <= s.start_hour {
            return Err(ConfigError::EndNotAfterStart);
        }
        if s.random_per_day.default == 0 {
            return Err(ConfigError::ZeroDefaultCount);
        }
        if contains_zero(&s.random_per_day.weekday.values()) {
            return Err(ConfigError::ZeroWeekdayOverride);
        }
        if s.random_min_spacing_minutes < 0 {
            return Err(ConfigError::NegativeSpacing);
        }
        if self.random.items.len() == 0 {
            return Err(ConfigError::NoRandomItems);
        }
        if any_blank_text(&self.random.items) {
            return Err(ConfigError::EmptyRandomMessage);
        }
        if any_blank_category(&self.random.items) {
            return Err(ConfigError::EmptyRandomCategory);
        }
        if any_blank_scheduled(&self.scheduled.items, false) {
            return Err(ConfigError::EmptyScheduledMessage);
        }
        if any_blank_scheduled(&self.scheduled.items, true) {
            return Err(ConfigError::EmptyScheduledCategory);
        }
        if any_interval_below(&self.intervals.items, 1) {
            return Err(ConfigError::ZeroIntervalMinutes);
        }
        if any_interval_below(&self.intervals.items, 5) {
            return Err(ConfigError::ShortIntervalMinutes);
        }
        if any_blank_interval(&self.intervals.items, false) {
            return Err(ConfigError::EmptyIntervalMessage);
        }
        if any_blank_interval(&self.intervals.items, true) {
            return Err(ConfigError::EmptyIntervalCategory);
        }
        validate_density(s)
    }
}

/// What `parse_scheduled_time` reads from a time text: `HH:MM` after
/// trimming, else `h:MMam`/`h:MMpm` or `ham`/`hpm` once lowercased and with
/// spaces removed.
pub open spec fn scheduled_time_spec(input: Seq<char>) -> Option<(u32, u32, u32)> {
    let t = trim_spec(input);
    match parsed_time(t, "%H:%M"@) {
        Some(x) => Some(x),
        None => {
            let compact = replaced(t.map_values(|c: char| ascii_lower(c)), " "@, ""@);
            match parsed_time(compact, "%I:%M%P"@) {
                Some(x) => Some(x),
                None => parsed_time(compact, "%I%P"@),
            }
        },
    }
}

/// Reads a scheduled item's time.
pub fn parse_scheduled_time(input: &str) -> (r: Option<TimeOfDay>)
    ensures
        r is Some <==> scheduled_time_spec(input@) is Some,
        r matches Some(t) ==> t.wf() && scheduled_time_spec(input@) == Some(
            (t.hour, t.minute, t.second),
        ),
{
    proof {
        reveal_strlit(" ");
        reveal_strlit("");
    }
    let trimmed = trim(input);
    match parse_time(trimmed, "%H:%M") {
        Some(t) => return Some(t),
        None => {},
    }
    let lower = to_ascii_lowercase(trimmed);
    let compact = replace(lower.as_str(), " ", "");
    match parse_time(compact.as_str(), "%I:%M%P") {
        Some(t) => Some(t),
        None => parse_time(compact.as_str(), "%I%P"),
    }
}

/// The starter configuration written by `init`.
pub fn default_config() -> (r: Config)
    ensures
        r.delivery.destination@ == "+15555555555"@,
        r.delivery.imsg_path@ == "/opt/homebrew/bin/imsg"@,
        r.schedule.start_hour == 9,
        r.schedule.end_hour == 21,
        r.schedule.random_per_day.default == 6,
        r.schedule.random_per_day.jitter == 0,
        r.schedule.random_per_day.weekday.is_empty_spec(),
        r.schedule.random_min_spacing_minutes == 45,
        r.random.items@.len() == 5,
        r.random.items@[0].text@ == "Update openclaw context."@,
        r.random.items@[0].category@ == "focus"@,
        r.random.items@[1].text@ == "Drink water."@,
        r.random.items@[1].category@ == "hydration"@,
        r.random.items@[2].text@ == "Stand up and stretch."@,
        r.random.items@[2].category@ == "mobility"@,
        r.random.items@[3].text@ == "Walk around for two minutes."@,
        r.random.items@[3].category@ == "movement"@,
        r.random.items@[4].text@ == "Do ten air squats."@,
        r.random.items@[4].category@ == "movement"@,
        r.scheduled.items@.len() == 0,
        r.intervals.items@.len() == 0,
{
    let mut items: Vec<MessageTemplate> = Vec::new();
    items.push(MessageTemplate::new("Update openclaw context.", "focus"));
    items.push(MessageTemplate::new("Drink water.", "hydration"));
    items.push(MessageTemplate::new("Stand up and stretch.", "mobility"));
    items.push(MessageTemplate::new("Walk around for two minutes.", "movement"));
    items.push(MessageTemplate::new("Do ten air squats.", "movement"));
    Config {
        delivery: DeliveryConfig {
            destination: String::from_str("+15555555555"),
            imsg_path: String::from_str("/opt/homebrew/bin/imsg"),
        },
        schedule: ScheduleConfig {
            start_hour: 9,
            end_hour: 21,
            random_per_day: RandomPerDay { default: 6, jitter: 0, weekday: WeekdayOverrides::none() },
            random_min_spacing_minutes: 45,
        },
        random: RandomConfig { items },
        scheduled: ScheduledConfig { items: Vec::new() },
        intervals: IntervalsConfig { items: Vec::new() },
    }
}

impl ConfigError {
    /// The message shown for the broken rule.
    pub open spec fn text(self) -> Seq<char> {
        match self {
            ConfigError::EmptyDestination => "delivery.destination must not be empty"@,
            ConfigError::RelativeImsgPath => "delivery.imsg_path must be an absolute path"@,
            ConfigError::MissingImsgPath(p) => "delivery.imsg_path does not exist: "@ + p@,
            ConfigError::StartHourOutOfRange => "schedule.start_hour must be in 0..=23"@,
            ConfigError::EndHourOutOfRange => "schedule.end_hour must be in 1..=24"@,
            ConfigError::EndNotAfterStart => "schedule.end_hour must be greater than schedule.start_hour"@,
            ConfigError::ZeroDefaultCount => "schedule.random_per_day.default must be greater than 0"@,
            ConfigError::ZeroWeekdayOverride => "schedule.random_per_day weekday overrides must be greater than 0"@,
            ConfigError::NegativeSpacing => "schedule.random_min_spacing_minutes must not be negative"@,
            ConfigError::NoRandomItems => "random.items must contain at least one message"@,
            ConfigError::EmptyRandomMessage => "random.items must not contain empty messages"@,
            ConfigError::EmptyRandomCategory => "random.items categories must not be empty"@,
            ConfigError::EmptyScheduledMessage => "scheduled.items must not contain empty messages"@,
            ConfigError::EmptyScheduledCategory => "scheduled.items categories must not be empty"@,
            ConfigError::ZeroIntervalMinutes => "intervals.items every_minutes must be greater than 0"@,
            ConfigError::ShortIntervalMinutes => "intervals.items every_minutes must be at least 5"@,
            ConfigError::EmptyIntervalMessage => "intervals.items must not contain empty messages"@,
            ConfigError::EmptyIntervalCategory => "intervals.items categories must not be empty"@,
            ConfigError::WindowTooSmall { worst_case, spacing_minutes } => "schedule window is too small for "@
                + decimal(worst_case as nat) + " pokes with "@ + signed_decimal(spacing_minutes as int)
                + " minutes minimum spacing"@,
        }
    }

    pub fn message(&self) -> (r: String)
        ensures
            r@ == self.text(),
    {
        let text = match self {
            ConfigError::EmptyDestination => "delivery.destination must not be empty",
            ConfigError::RelativeImsgPath => "delivery.imsg_path must be an absolute path",
            ConfigError::MissingImsgPath(p) => {
                let mut r = String::from_str("delivery.imsg_path does not exist: ");
                r.append(p.as_str());
                return r;
            },
            ConfigError::StartHourOutOfRange => "schedule.start_hour must be in 0..=23",
            ConfigError::EndHourOutOfRange => "schedule.end_hour must be in 1..=24",
            ConfigError::EndNotAfterStart => "schedule.end_hour must be greater than schedule.start_hour",
            ConfigError::ZeroDefaultCount => "schedule.random_per_day.default must be greater than 0",
            ConfigError::ZeroWeekdayOverride => "schedule.random_per_day weekday overrides must be greater than 0",
            ConfigError::NegativeSpacing => "schedule.random_min_spacing_minutes must not be negative",
            ConfigError::NoRandomItems => "random.items must contain at least one message",
            ConfigError::EmptyRandomMessage => "random.items must not contain empty messages",
            ConfigError::EmptyRandomCategory => "random.items categories must not be empty",
            ConfigError::EmptyScheduledMessage => "scheduled.items must not contain empty messages",
            ConfigError::EmptyScheduledCategory => "scheduled.items categories must not be empty",
            ConfigError::ZeroIntervalMinutes => "intervals.items every_minutes must be greater than 0",
            ConfigError::ShortIntervalMinutes => "intervals.items every_minutes must be at least 5",
            ConfigError::EmptyIntervalMessage => "intervals.items must not contain empty messages",
            ConfigError::EmptyIntervalCategory => "intervals.items categories must not be empty",
            ConfigError::WindowTooSmall { worst_case, spacing_minutes } => {
                let mut r = String::from_str("schedule window is too small for ");
                let count = decimal_string(*worst_case as u64);
                r.append(count.as_str());
                r.append(" pokes with ");
                let spacing = signed_decimal_string(*spacing_minutes);
                r.append(spacing.as_str());
                r.append(" minutes minimum spacing");
                return r;
            },
        };
        String::from_str(text)
    }
}

} // verus!
