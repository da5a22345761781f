//! Where the configuration, state, lock and logs live, from `HOME` and the
//! XDG base directories.

use vstd::prelude::*;
use vstd::string::*;

use crate::text::{absolute, is_absolute, join, joined};

verus! {

/// The files and directories the tool uses.
#[derive(Clone, Debug, PartialEq, Eq)]
pub struct PokePaths {
    pub config_dir: String,
    pub config_file: String,
    pub state_dir: String,
    pub state_file: String,
    pub lock_file: String,
    pub log_dir: String,
}

/// Why the paths could not be resolved.
#[derive(Clone, Copy, Debug, PartialEq, Eq, Structural)]
pub enum PathsError {
    HomeNotSet,
    HomeNotAbsolute,
}

impl PathsError {
    pub open spec fn text(self) -> Seq<char> {
        match self {
            PathsError::HomeNotSet => "HOME is not set"@,
            PathsError::HomeNotAbsolute => "HOME must be an absolute path"@,
        }
    }

    pub fn message(&self) -> (r: String)
        ensures
            r@ == self.text(),
    {
        proof {
            reveal_strlit("HOME is not set");
            reveal_strlit("HOME must be an absolute path");
        }
        match self {
            PathsError::HomeNotSet => String::from_str("HOME is not set"),
            PathsError::HomeNotAbsolute => String::from_str("HOME must be an absolute path"),
        }
    }
}

/// The paths under two base directories.
pub open spec fn paths_under(p: PokePaths, config_base: Seq<char>, state_base: Seq<char>) -> bool {
    let config_dir = joined(config_base, "poke"@);
    let state_dir = joined(state_base, "poke"@);
    &&& p.config_dir@ == config_dir
    &&& p.config_file@ == joined(config_dir, "config.toml"@)
    &&& p.state_dir@ == state_dir
    &&& p.state_file@ == joined(state_dir, "state.json"@)
    &&& p.lock_file@ == joined(state_dir, "state.lock"@)
    &&& p.log_dir@ == joined(state_dir, "log"@)
}

/// The value of an XDG variable when it is set, not empty and absolute.
pub open spec fn usable_base(value: Option<Seq<char>>) -> Option<Seq<char>> {
    match value {
        Some(v) => if v.len() > 0 && absolute(v) {
            Some(v)
        } else {
            None
        },
        None => None,
    }
}

pub open spec fn view_opt(value: Option<&str>) -> Option<Seq<char>> {
    match value {
        Some(v) => Some(v@),
        None => None,
    }
}

/// The base directory for configuration: `XDG_CONFIG_HOME` when usable,
/// else `HOME/.config`.
pub open spec fn config_base(home: Seq<char>, xdg_config_home: Option<Seq<char>>) -> Seq<char> {
    match usable_base(xdg_config_home) {
        Some(b) => b,
        None => joined(home, ".config"@),
    }
}

/// The base directory for state: `XDG_STATE_HOME` when usable, else
/// `HOME/.local/state`.
pub open spec fn state_base(home: Seq<char>, xdg_state_home: Option<Seq<char>>) -> Seq<char> {
    match usable_base(xdg_state_home) {
        Some(b) => b,
        None => joined(joined(home, ".local"@), "state"@),
    }
}

/// An XDG variable's value when it is set, not empty and absolute.
fn absolute_env_path(value: Option<&str>) -> (r: Option<String>)
    ensures
        r matches Some(s) ==> usable_base(view_opt(value)) == Some(s@),
        r is None ==> usable_base(view_opt(value)) is None,
{
    match value {
        Some(v) => {
            if v.is_empty() || !is_absolute(v) {
                None
            } else {
                Some(String::from_str(v))
            }
        },
        None => None,
    }
}

/// `HOME`, which must be set and absolute.
fn home_dir(home: Option<&str>) -> (r: Result<String, PathsError>)
    ensures
        home is None ==> r == Err::<String, PathsError>(PathsError::HomeNotSet),
        home matches Some(h) ==> if absolute(h@) {
            (r matches Ok(s) && s@ == h@)
        } else {
            r == Err::<String, PathsError>(PathsError::HomeNotAbsolute)
        },
{
    match home {
        Some(h) => {
            if is_absolute(h) {
                Ok(String::from_str(h))
            } else {
                Err(PathsError::HomeNotAbsolute)
            }
        },
        None => Err(PathsError::HomeNotSet),
    }
}

impl PokePaths {
    /// The paths under the given base directories.
    pub fn from_bases(config_base: &str, state_base: &str) -> (r: PokePaths)
        ensures
            paths_under(r, config_base@, state_base@),
    {
        proof {
            reveal_strlit("poke");
            reveal_strlit("log");
            reveal_strlit("config.toml");
            reveal_strlit("state.json");
            reveal_strlit("state.lock");
        }
        let config_dir = join(config_base, "poke");
        let state_dir = join(state_base, "poke");
        let log_dir = join(state_dir.as_str(), "log");
        let config_file = join(config_dir.as_str(), "config.toml");
        let state_file = join(state_dir.as_str(), "state.json");
        let lock_file = join(state_dir.as_str(), "state.lock");
        PokePaths { config_dir, config_file, state_dir, state_file, lock_file, log_dir }
    }

    /// The paths for a home directory and the values of `XDG_CONFIG_HOME`
    /// and `XDG_STATE_HOME`; a variable that is unset, empty or relative
    /// falls back to its default under `home`.
    pub fn from_env(home: &str, xdg_config_home: Option<&str>, xdg_state_home: Option<&str>) -> (r:
        PokePaths)
        ensures
            paths_under(
                r,
                config_base(home@, view_opt(xdg_config_home)),
                state_base(home@, view_opt(xdg_state_home)),
            ),
            xdg_state_home is Some && absolute(xdg_state_home.unwrap()@) ==> {
                &&& r.state_dir@ == joined(xdg_state_home.unwrap()@, "poke"@)
                &&& r.state_file@ == joined(joined(xdg_state_home.unwrap()@, "poke"@), "state.json"@)
                &&& r.lock_file@ == joined(joined(xdg_state_home.unwrap()@, "poke"@), "state.lock"@)
                &&& r.log_dir@ == joined(joined(xdg_state_home.unwrap()@, "poke"@), "log"@)
            },
            !(xdg_state_home is Some && absolute(xdg_state_home.unwrap()@)) ==> r.state_dir@ == joined(
                joined(joined(home@, ".local"@), "state"@),
                "poke"@,
            ),
            xdg_config_home is Some && absolute(xdg_config_home.unwrap()@) ==> {
                &&& r.config_dir@ == joined(xdg_config_home.unwrap()@, "poke"@)
                &&& r.config_file@ == joined(joined(xdg_config_home.unwrap()@, "poke"@), "config.toml"@)
            },
            !(xdg_config_home is Some && absolute(xdg_config_home.unwrap()@)) ==> r.config_dir@ == joined(
                joined(home@, ".config"@),
                "poke"@,
            ),
    {
        proof {
            reveal_strlit(".config");
            reveal_strlit(".local");
            reveal_strlit("state");
        }
        let config = match absolute_env_path(xdg_config_home) {
            Some(b) => b,
            None => join(home, ".config"),
        };
        let state = match absolute_env_path(xdg_state_home) {
            Some(b) => b,
            None => {
                let local = join(home, ".local");
                join(local.as_str(), "state")
            },
        };
        PokePaths::from_bases(config.as_str(), state.as_str())
    }

    /// The paths from the values of `HOME`, `XDG_CONFIG_HOME` and
    /// `XDG_STATE_HOME`; `HOME` must be set and absolute.
    pub fn resolve(home: Option<&str>, xdg_config_home: Option<&str>, xdg_state_home: Option<&str>) -> (r:
        Result<PokePaths, PathsError>)
        ensures
            match home {
                Some(h) => if absolute(h@) {
                    r matches Ok(p) && paths_under(
                        p,
                        config_base(h@, view_opt(xdg_config_home)),
                        state_base(h@, view_opt(xdg_state_home)),
                    )
                } else {
                    r == Err::<PokePaths, PathsError>(PathsError::HomeNotAbsolute)
                },
                None => r == Err::<PokePaths, PathsError>(PathsError::HomeNotSet),
            },
            r is Ok && xdg_state_home is Some && absolute(xdg_state_home.unwrap()@) ==> {
                &&& r.unwrap().state_dir@ == joined(xdg_state_home.unwrap()@, "poke"@)
                &&& r.unwrap().state_file@ == joined(
                    joined(xdg_state_home.unwrap()@, "poke"@),
                    "state.json"@,
                )
                &&& r.unwrap().lock_file@ == joined(
                    joined(xdg_state_home.unwrap()@, "poke"@),
                    "state.lock"@,
                )
                &&& r.unwrap().log_dir@ == joined(joined(xdg_state_home.unwrap()@, "poke"@), "log"@)
            },
            r is Ok && xdg_config_home is Some && absolute(xdg_config_home.unwrap()@) ==> {
                &&& r.unwrap().config_dir@ == joined(xdg_config_home.unwrap()@, "poke"@)
                &&& r.unwrap().config_file@ == joined(
                    joined(xdg_config_home.unwrap()@, "poke"@),
                    "config.toml"@,
                )
            },
            r is Ok && !(xdg_state_home is Some && absolute(xdg_state_home.unwrap()@))
                ==> r.unwrap().state_dir@ == joined(
                joined(joined(home.unwrap()@, ".local"@), "state"@),
                "poke"@,
            ),
            r is Ok && !(xdg_config_home is Some && absolute(xdg_config_home.unwrap()@))
                ==> r.unwrap().config_dir@ == joined(joined(home.unwrap()@, ".config"@), "poke"@),
    {
        let h = match home_dir(home) {
            Ok(h) => h,
            Err(e) => return Err(e),
        };
        Ok(PokePaths::from_env(h.as_str(), xdg_config_home, xdg_state_home))
    }
}

} // verus!
