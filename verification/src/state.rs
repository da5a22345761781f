//! The persisted state: today's pending queue, today's sends, and the recent
//! send history that carries across days.

use vstd::prelude::*;
use vstd::string::*;

verus! {

/// Where a poke came from.
#[derive(Clone, Copy, Debug, PartialEq, Eq, Structural)]
pub enum PokeKind {
    Random,
    Scheduled,
    Interval,
}

impl PokeKind {
    pub open spec fn text(self) -> Seq<char> {
        match self {
            PokeKind::Random => "random"@,
            PokeKind::Scheduled => "scheduled"@,
            PokeKind::Interval => "interval"@,
        }
    }

    /// The lowercase name used in state files and in `show` output.
    pub fn as_str(self) -> (r: &'static str)
        ensures
            r@ == self.text(),
    {
        proof {
            reveal_strlit("random");
            reveal_strlit("scheduled");
            reveal_strlit("interval");
        }
        match self {
            PokeKind::Random => "random",
            PokeKind::Scheduled => "scheduled",
            PokeKind::Interval => "interval",
        }
    }
}

/// One successful send remembered for rotation.
#[derive(Clone, Debug, PartialEq, Eq)]
pub struct RecentMessage {
    pub message: String,
    pub category: String,
}

impl RecentMessage {
    pub fn new(message: &str, category: &str) -> (r: RecentMessage)
        ensures
            r.message@ == message@,
            r.category@ == category@,
    {
        RecentMessage { message: String::from_str(message), category: String::from_str(category) }
    }

    pub fn duplicate(&self) -> (r: RecentMessage)
        ensures
            r == *self,
    {
        RecentMessage { message: self.message.clone(), category: self.category.clone() }
    }
}

} // verus!

verus! {

/// A poke waiting to be sent.
#[derive(Clone, Debug, PartialEq, Eq)]
pub struct PendingPoke {
    pub id: String,
    pub at: crate::time::Timestamp,
    pub message: String,
    pub category: String,
    pub kind: PokeKind,
}

/// A poke that was sent.
#[derive(Clone, Debug, PartialEq, Eq)]
pub struct SentPoke {
    pub id: String,
    pub scheduled_at: crate::time::Timestamp,
    pub sent_at: crate::time::Timestamp,
    pub message: String,
    pub category: String,
    pub kind: PokeKind,
}

/// Everything kept between ticks.
#[derive(Clone, Debug, PartialEq, Eq)]
pub struct State {
    pub last_schedule_date: Option<crate::time::LocalDate>,
    pub pending: Vec<PendingPoke>,
    pub sent: Vec<SentPoke>,
    pub recent_history: Vec<RecentMessage>,
}

impl State {
    /// The state before the first tick: no schedule, nothing sent.
    pub fn new() -> (r: State)
        ensures
            r.last_schedule_date is None,
            r.pending@.len() == 0,
            r.sent@.len() == 0,
            r.recent_history@.len() == 0,
    {
        State {
            last_schedule_date: None,
            pending: Vec::new(),
            sent: Vec::new(),
            recent_history: Vec::new(),
        }
    }
}

} // verus!

verus! {

/// The last component of a path as `std::path::Path::file_name` finds it:
/// `None` for a path ending in `..` or with no component.
pub uninterp spec fn path_file_name(path: Seq<char>) -> Option<Seq<char>>;

/// The path with its last component replaced, as
/// `std::path::Path::with_file_name` builds it.
pub uninterp spec fn path_with_file_name(path: Seq<char>, name: Seq<char>) -> Seq<char>;

/// Calls `Path::file_name`; the result, a function of the path, is named by
/// `path_file_name`. The component of a UTF-8 path is UTF-8, so the lossy
/// conversion keeps it as it is.
#[verifier::external_body]
pub(crate) fn file_name(path: &str) -> (r: Option<String>)
    ensures
        r is Some <==> path_file_name(path@) is Some,
        r matches Some(n) ==> path_file_name(path@) == Some(n@),
{
    match std::path::Path::new(path).file_name() {
        Some(name) => Some(name.to_string_lossy().into_owned()),
        None => None,
    }
}

/// Calls `Path::with_file_name`; the result, a function of its arguments,
/// is named by `path_with_file_name`.
#[verifier::external_body]
pub(crate) fn with_file_name(path: &str, name: &str) -> (r: String)
    ensures
        r@ == path_with_file_name(path@, name@),
{
    std::path::Path::new(path).with_file_name(name).to_string_lossy().into_owned()
}

/// Where the state is written before it is renamed over `path`: a hidden
/// `.NAME.tmp` beside it.
pub fn temp_path(path: &str) -> (r: String)
    ensures
        r@ == path_with_file_name(
            path@,
            "."@ + match path_file_name(path@) {
                Some(n) => n,
                None => "state.json"@,
            } + ".tmp"@,
        ),
{
    let name = match file_name(path) {
        Some(n) => n,
        None => String::from_str("state.json"),
    };
    let mut hidden = String::from_str(".");
    hidden.append(name.as_str());
    hidden.append(".tmp");
    with_file_name(path, hidden.as_str())
}

} // verus!
