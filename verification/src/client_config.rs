//! Client-side defaults and their precedence: flag > `$LIBRARIAN_DAEMON` >
//! config file > built-in default.

use vstd::prelude::*;
use crate::http::DEFAULT_TIMEOUT_SECS;
use crate::path::{join, join_spec};
use crate::text::owned;

verus! {

/// The daemon URL when nothing else names one.
pub open spec fn default_daemon() -> Seq<char> {
    "http://localhost:6700"@
}

/// Optional client config (`$XDG_CONFIG_HOME/librarian/config.toml`).
#[derive(Debug)]
pub struct ClientConfig {
    pub daemon: Option<String>,
    pub timeout: Option<u64>,
    pub limit: Option<u64>,
}

impl Default for ClientConfig {
    fn default() -> (r: Self)
        ensures
            r.daemon is None,
            r.timeout is None,
            r.limit is None,
    {
        ClientConfig { daemon: None, timeout: None, limit: None }
    }
}

impl ClientConfig {
    /// Resolve the daemon URL: explicit flag > `$LIBRARIAN_DAEMON` (`env_daemon`,
    /// ignored when empty) > config > default.
    pub fn resolve_daemon(&self, flag: Option<&str>, env_daemon: Option<&str>) -> (r: String)
        ensures
            r@ == match flag {
                Some(f) => f@,
                None => match env_daemon {
                    Some(e) if e@.len() > 0 => e@,
                    _ => match self.daemon {
                        Some(d) => d@,
                        None => default_daemon(),
                    },
                },
            },
    {
        if let Some(f) = flag {
            return owned(f);
        }
        if let Some(e) = env_daemon {
            if !e.is_empty() {
                return owned(e);
            }
        }
        match &self.daemon {
            Some(d) => d.clone(),
            None => owned("http://localhost:6700"),
        }
    }

    /// Resolve the request timeout (seconds): flag > config > default.
    pub fn resolve_timeout(&self, flag: Option<u64>) -> (r: u64)
        ensures
            r == match flag {
                Some(f) => f,
                None => match self.timeout {
                    Some(t) => t,
                    None => DEFAULT_TIMEOUT_SECS,
                },
            },
    {
        match flag {
            Some(f) => f,
            None => match self.timeout {
                Some(t) => t,
                None => DEFAULT_TIMEOUT_SECS,
            },
        }
    }

    /// Resolve the hit limit: flag > config > `fallback`.
    pub fn resolve_limit(&self, flag: Option<u64>, fallback: u64) -> (r: u64)
        ensures
            r == match flag {
                Some(f) => f,
                None => match self.limit {
                    Some(l) => l,
                    None => fallback,
                },
            },
    {
        match flag {
            Some(f) => f,
            None => match self.limit {
                Some(l) => l,
                None => fallback,
            },
        }
    }
}

/// Where the client config lives: `$XDG_CONFIG_HOME/librarian/config.toml`,
/// else `$HOME/.config/librarian/config.toml`; nowhere when neither is set.
pub open spec fn config_file_spec(xdg_config_home: Option<Seq<char>>, home: Option<Seq<char>>) -> Option<Seq<char>> {
    let base = match xdg_config_home {
        Some(x) => Some(x),
        None => match home {
            Some(h) => Some(join_spec(h, ".config"@)),
            None => None,
        },
    };
    match base {
        Some(b) => Some(join_spec(join_spec(b, "librarian"@), "config.toml"@)),
        None => None,
    }
}

/// The client config file for the given `$XDG_CONFIG_HOME` and `$HOME`.
pub fn config_file_path(xdg_config_home: Option<&str>, home: Option<&str>) -> (r: Option<String>)
    ensures
        match r {
            Some(p) => config_file_spec(
                match xdg_config_home { Some(x) => Some(x@), None => None },
                match home { Some(h) => Some(h@), None => None },
            ) == Some(p@),
            None => config_file_spec(
                match xdg_config_home { Some(x) => Some(x@), None => None },
                match home { Some(h) => Some(h@), None => None },
            ) is None,
        },
{
    let base = match xdg_config_home {
        Some(x) => owned(x),
        None => match home {
            Some(h) => join(h, ".config"),
            None => return None,
        },
    };
    Some(join(join(base.as_str(), "librarian").as_str(), "config.toml"))
}

} // verus!
