//! Configuration at the edge, read from secrets and variables of the platform.

use vstd::prelude::*;

use crate::config;
use crate::text;

pub use crate::config::mask_key;

verus! {

/// The settings at the edge.
#[derive(Debug, Clone)]
pub struct Config {
    pub keys: Vec<String>,
    pub cooldown_seconds: u64,
    pub cache_ttl_seconds: u64,
    /// Responses larger than this (bytes) are not cached.
    pub cache_max_body_bytes: usize,
    pub ipinfo_base_url: String,
    /// If true, API keys in /me responses are redacted (only the first 3 characters are shown).
    pub redact_keys: bool,
}

/// The secret and the variables that are read, each with its value where it is set.
#[derive(Debug)]
pub struct Env {
    pub ipinfo_keys_secret: Option<String>,
    pub ipinfo_keys_var: Option<String>,
    pub cooldown_seconds: Option<String>,
    pub cache_ttl_seconds: Option<String>,
    pub cache_max_body_bytes: Option<String>,
    pub ipinfo_base_url: Option<String>,
    pub redact_keys: Option<String>,
}

/// The number that a variable holds, or the default where it is not set or holds no number.
pub open spec fn number_or(variable: Option<String>, default: nat, max: nat) -> nat {
    match variable {
        Some(text) => match text::number(text@, max) {
            Ok(n) => n,
            Err(_) => default,
        },
        None => default,
    }
}

impl Env {
    /// The list of keys: the secret, or the variable where there is no secret.
    pub open spec fn key_source(self) -> Option<String> {
        match self.ipinfo_keys_secret {
            Some(secret) => Some(secret),
            None => self.ipinfo_keys_var,
        }
    }

    /// Whether `config` holds the settings that the secret and the variables give.
    pub open spec fn gives(self, config: Config) -> bool {
        &&& self.key_source() matches Some(raw) && text::texts(config.keys@) == config::key_list(
            raw@,
        )
        &&& config.cooldown_seconds == number_or(self.cooldown_seconds, 60, u64::MAX as nat)
        &&& config.cache_ttl_seconds == number_or(self.cache_ttl_seconds, 300, u64::MAX as nat)
        &&& config.cache_max_body_bytes == number_or(
            self.cache_max_body_bytes,
            32768,
            usize::MAX as nat,
        )
        &&& config.ipinfo_base_url@ == config::text_setting(
            self.ipinfo_base_url,
            "https://ipinfo.io"@,
        )
        &&& config.redact_keys == config::flag_setting(self.redact_keys)
    }
}

/// Reads a number that is at most `max`, or takes the default where the variable is not set or
/// holds no such number.
pub fn get_var_parsed(variable: &Option<String>, default: u64, max: u64) -> (n: u64)
    requires
        default <= max,
    ensures
        n <= max,
        n == number_or(*variable, default as nat, max as nat),
{
    match variable {
        Some(val) => match text::parse_number(val.as_str(), max) {
            Ok(n) => n,
            Err(_) => default,
        },
        None => default,
    }
}

impl Config {
    /// Reads the settings, or says what is wrong with the list of keys.
    pub fn from_env(env: &Env) -> (config: Result<Config, String>)
        ensures
            match config {
                Ok(config) => config::keys_problem(env.key_source()) is None && env.gives(config),
                Err(problem) => config::keys_problem(env.key_source()) == Some(problem@),
            },
    {
        let source: &Option<String> = match &env.ipinfo_keys_secret {
            Some(_) => &env.ipinfo_keys_secret,
            None => &env.ipinfo_keys_var,
        };
        let keys = match source {
            None => {
                return Err("IPINFO_KEYS is required but not set".to_owned());
            },
            Some(raw) => config::parse_keys(raw.as_str()),
        };
        assert(text::texts(keys@).len() == keys.len());
        if keys.len() == 0 {
            return Err("IPINFO_KEYS must contain at least one key".to_owned());
        }
        Ok(
            Config {
                keys,
                cooldown_seconds: get_var_parsed(&env.cooldown_seconds, 60, u64::MAX),
                cache_ttl_seconds: get_var_parsed(&env.cache_ttl_seconds, 300, u64::MAX),
                cache_max_body_bytes: get_var_parsed(
                    &env.cache_max_body_bytes,
                    32768,
                    usize::MAX as u64,
                ) as usize,
                ipinfo_base_url: config::text_or(&env.ipinfo_base_url, "https://ipinfo.io"),
                redact_keys: config::flag(&env.redact_keys),
            },
        )
    }
}

/// A configuration that was accepted has at least one key, and its keys are clean.
pub proof fn law_accepted_keys(env: Env, config: Config)
    requires
        config::keys_problem(env.key_source()) is None,
        env.gives(config),
    ensures
        config.keys@.len() > 0,
        forall|i: int|
            0 <= i < config.keys@.len() ==> config::clean_key((#[trigger] config.keys@[i])@),
{
    let raw = env.key_source()->0@;
    let list = text::texts(config.keys@);
    assert(list.len() == config.keys@.len());
    config::lemma_key_list(raw);
    assert forall|i: int| 0 <= i < config.keys@.len() implies config::clean_key(
        (#[trigger] config.keys@[i])@,
    ) by {
        assert(list[i] == config.keys@[i]@);
    }
}

/// Every setting is what its variable holds, or the default where the variable is not set or holds
/// no number. The keys are those of the secret, or of the variable where there is no secret.
pub proof fn law_settings_are_those_of_the_variables(env: Env, config: Config)
    requires
        env.gives(config),
    ensures
        ({
            let number = |variable: Option<String>, default: nat, max: nat, setting: nat|
                match variable {
                    None => setting == default,
                    Some(s) => match text::number(s@, max) {
                        Ok(n) => setting == n,
                        Err(_) => setting == default,
                    },
                };
            &&& env.ipinfo_keys_secret matches Some(raw) ==> text::texts(config.keys@)
                == config::key_list(raw@)
            &&& env.ipinfo_keys_secret is None ==> (env.ipinfo_keys_var matches Some(raw)
                && text::texts(config.keys@) == config::key_list(raw@))
            &&& number(
                env.cooldown_seconds,
                60,
                u64::MAX as nat,
                config.cooldown_seconds as nat,
            )
            &&& number(
                env.cache_ttl_seconds,
                300,
                u64::MAX as nat,
                config.cache_ttl_seconds as nat,
            )
            &&& number(
                env.cache_max_body_bytes,
                32768,
                usize::MAX as nat,
                config.cache_max_body_bytes as nat,
            )
            &&& env.ipinfo_base_url matches Some(s) ==> config.ipinfo_base_url@ == s@
            &&& env.ipinfo_base_url is None ==> config.ipinfo_base_url@ == "https://ipinfo.io"@
            &&& config.redact_keys == config::flag_setting(env.redact_keys)
        }),
{
}

/// The settings are refused exactly if there is no list of keys or no key in it, and it is said
/// which of the two; a list that is a secret hides one that is a variable.
pub proof fn law_only_keys_are_a_problem(env: Env)
    ensures
        env.ipinfo_keys_secret is None && env.ipinfo_keys_var is None ==> config::keys_problem(
            env.key_source(),
        ) == Some("IPINFO_KEYS is required but not set"@),
        env.ipinfo_keys_secret matches Some(raw) ==> config::keys_problem(env.key_source())
            == if config::key_list(raw@).len() == 0 {
            Some("IPINFO_KEYS must contain at least one key"@)
        } else {
            None
        },
        env.ipinfo_keys_secret is None ==> (env.ipinfo_keys_var matches Some(raw)
            ==> config::keys_problem(env.key_source()) == if config::key_list(raw@).len() == 0 {
            Some("IPINFO_KEYS must contain at least one key"@)
        } else {
            None
        }),
{
}

/// A number is the one that its variable holds, or the default where the variable is not set or
/// holds no number that is small enough.
pub proof fn law_number_is_held_or_default(variable: Option<String>, default: nat, max: nat)
    ensures
        variable is None ==> number_or(variable, default, max) == default,
        variable matches Some(s) ==> match text::number(s@, max) {
            Ok(n) => number_or(variable, default, max) == n,
            Err(_) => number_or(variable, default, max) == default,
        },
{
}

} // verus!
