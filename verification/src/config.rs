//! Configuration: the API key and the event to browse.

use vstd::prelude::*;
use crate::text::{str_eq, text_of, trim, trim_text};

verus! {

/// Command-line options.
#[derive(Debug, Clone)]
pub struct Cli {
    /// Browse the 2024 event instead of the 2026 one.
    pub test_mode: bool,
    /// Browse this event instead.
    pub event_key: Option<String>,
}

/// The settings the application runs with.
#[derive(Debug, Clone)]
pub struct Config {
    pub api_key: String,
    pub event_key: String,
    pub test_mode: bool,
}

/// Why no configuration could be made.
#[derive(Debug, Clone, Copy)]
pub enum ConfigError {
    /// No usable API key was given.
    MissingApiKey,
}

/// The event browsed: the one named on the command line, else the 2024
/// event in test mode, else the 2026 event.
pub open spec fn chosen_event_key(cli: Cli) -> Seq<char> {
    match cli.event_key {
        Some(k) => k@,
        None => if cli.test_mode {
            "2024nyro"@
        } else {
            "2026nyro"@
        },
    }
}

/// An API key that cannot be used: empty, or the placeholder of the sample
/// settings file.
pub open spec fn unusable_key(key: Seq<char>) -> bool {
    key == "your_api_key_here"@ || key.len() == 0
}

/// An event named on the command line is browsed; without one, test mode
/// browses the 2024 Finger Lakes event and otherwise the 2026 one. The key
/// is refused exactly when it is empty or the sample placeholder.
pub proof fn lemma_config_choices(cli: Cli, key: Seq<char>)
    ensures
        cli.event_key matches Some(k) ==> chosen_event_key(cli) == k@,
        cli.event_key is None && cli.test_mode ==> chosen_event_key(cli) == "2024nyro"@,
        cli.event_key is None && !cli.test_mode ==> chosen_event_key(cli) == "2026nyro"@,
        unusable_key(key) <==> (key.len() == 0 || key == "your_api_key_here"@),
{
}

impl ConfigError {
    /// The message shown for the error.
    pub fn message(&self) -> (r: String)
        ensures
            r@ == "TBA API requires authentication for all endpoints.\nPlease set a valid TBA_API_KEY in your .env file.\nGet your API key from: https://www.thebluealliance.com/account"@,
    {
        text_of(
            "TBA API requires authentication for all endpoints.\nPlease set a valid TBA_API_KEY in your .env file.\nGet your API key from: https://www.thebluealliance.com/account",
        )
    }
}

impl Config {
    /// The configuration from the raw API key setting (empty when unset)
    /// and the command-line options: the key is used with surrounding
    /// whitespace removed, and an unusable key is an error.
    pub fn from_sources(raw_api_key: &str, cli: Cli) -> (r: Result<Config, ConfigError>)
        ensures
            match r {
                Ok(c) => {
                    &&& !unusable_key(trim_text(raw_api_key@))
                    &&& c.api_key@ == trim_text(raw_api_key@)
                    &&& c.event_key@ == chosen_event_key(cli)
                    &&& c.test_mode == cli.test_mode
                },
                Err(e) => unusable_key(trim_text(raw_api_key@)),
            },
    {
        let api_key = trim(raw_api_key);
        proof {
            reveal_strlit("2024nyro");
            reveal_strlit("2026nyro");
            reveal_strlit("your_api_key_here");
        }
        let event_key = match cli.event_key {
            Some(k) => k,
            None => if cli.test_mode {
                text_of("2024nyro")
            } else {
                text_of("2026nyro")
            },
        };
        if str_eq(api_key.as_str(), "your_api_key_here") || api_key.as_str().unicode_len() == 0 {
            return Err(ConfigError::MissingApiKey);
        }
        Ok(Config { api_key, event_key, test_mode: cli.test_mode })
    }
}

} // verus!
