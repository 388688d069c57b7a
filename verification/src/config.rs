//! Configuration values: the store token and the container channel, kept in
//! a two-level store — values scoped to a working directory shadow global
//! ones.  Reading and writing the file itself stays outside; this module
//! holds the keys, the values and the lookup rules.

use vstd::prelude::*;
use crate::text::str_eq;

verus! {

/// One configuration value.
#[derive(Debug)]
pub enum ConfigValue {
    /// The store's access token.
    Token(String),
    /// The container (channel) id, as entered.
    Channel(String),
}

/// Why a configuration could not be read or written.
#[derive(Debug)]
pub enum ConfigError {
    /// The key is neither `token` nor `channel`.
    InvalidKey(String),
    /// A path was not valid Unicode; carries its lossy rendering.
    NonUnicodePath(String),
    /// No configuration directory could be found.
    NoConfigDir,
    /// The configuration file did not parse; carries the reporter's message.
    Ini(String),
    /// Reading or writing the file failed; carries the reporter's message.
    Io(String),
    /// No token is set.
    NoToken,
    /// No channel is set.
    NoChannel,
}

impl ConfigValue {
    /// Turns a `key`/`value` pair into a configuration value; only the keys
    /// `token` and `channel` exist.
    pub fn parse(key: String, val: String) -> (r: Result<ConfigValue, ConfigError>)
        ensures
            key@ == "token"@ ==> r == Ok::<ConfigValue, ConfigError>(ConfigValue::Token(val)),
            key@ == "channel"@ ==> r == Ok::<ConfigValue, ConfigError>(ConfigValue::Channel(val)),
            key@ != "token"@ && key@ != "channel"@ ==> r == Err::<ConfigValue, ConfigError>(
                ConfigError::InvalidKey(key),
            ),
    {
        proof {
            reveal_strlit("token");
            reveal_strlit("channel");
            assert("token"@.len() == 5 && "channel"@.len() == 7);
        }
        if str_eq(key.as_str(), "token") {
            Ok(ConfigValue::Token(val))
        } else if str_eq(key.as_str(), "channel") {
            Ok(ConfigValue::Channel(val))
        } else {
            Err(ConfigError::InvalidKey(key))
        }
    }

    /// The stored value itself.
    pub fn inner(&self) -> (r: &str)
        ensures
            r@ == match self {
                ConfigValue::Token(s) => s@,
                ConfigValue::Channel(s) => s@,
            },
    {
        self._pairs().1
    }

    /// The display key and the stored value.
    pub fn _pairs(&self) -> (r: (&str, &str))
        ensures
            match self {
                ConfigValue::Token(s) => r.0@ == "Token"@ && r.1@ == s@,
                ConfigValue::Channel(s) => r.0@ == "Channel"@ && r.1@ == s@,
            },
    {
        match self {
            ConfigValue::Token(s) => ("Token", s.as_str()),
            ConfigValue::Channel(s) => ("Channel", s.as_str()),
        }
    }
}

/// Two-level lookup: the value scoped to the working directory wins, and
/// the global value fills in where no scoped one is set.
pub fn resolve_config(scoped: Option<String>, global: Option<String>) -> (r: Option<String>)
    ensures
        scoped is Some ==> r == scoped,
        scoped is None ==> r == global,
{
    match scoped {
        Some(v) => Some(v),
        None => global,
    }
}

/// Builds the `(token, channel)` pair a section yields; a missing token is
/// reported before a missing channel.
pub fn config_from_section(token: Option<String>, channel: Option<String>) -> (r: Result<
    (ConfigValue, ConfigValue),
    ConfigError,
>)
    ensures
        match r {
            Ok(pair) => (token matches Some(t) && pair.0 == ConfigValue::Token(t)) && (
            channel matches Some(c) && pair.1 == ConfigValue::Channel(c)),
            Err(ConfigError::NoToken) => token is None,
            Err(ConfigError::NoChannel) => token is Some && channel is None,
            Err(_) => false,
        },
{
    let t = match token {
        Some(t) => t,
        None => {
            return Err(ConfigError::NoToken);
        },
    };
    let c = match channel {
        Some(c) => c,
        None => {
            return Err(ConfigError::NoChannel);
        },
    };
    Ok((ConfigValue::Token(t), ConfigValue::Channel(c)))
}

} // verus!
