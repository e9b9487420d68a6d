//! Configuration loading for compactd.
//!
//! What the configuration file and the environment hold is handed over; the
//! directories of the user are looked up here.

use vstd::prelude::*;
use vstd::string::*;
use vstd::utf8::encode_utf8;

pub use crate::paths::{
    default_database_path, expand_home_in, expand_home_path, expand_home_path_in, join_path,
};

use crate::paths::{
    config_dir, config_path_in, data_dir, database_path_in, default_config_path, expanded,
    expanded_path, home_dir, path_in,
};
use crate::text::{bytes_of, chars_of, decimal, digit_char, text_in};

verus! {

broadcast use vstd::string::group_string_axioms;

/// Default TCP port for the compactd REST daemon.
pub const DEFAULT_PORT: u16 = 3103;

/// Default host to bind the REST daemon.
pub const DEFAULT_HOST: &'static str = "127.0.0.1";

/// Default directory to scan for agent sessions.
pub const DEFAULT_SESSION_DIR: &'static str = "~/.config/kimi/sessions";

/// Default maximum number of turns before archiving is triggered.
pub const DEFAULT_MAX_TURNS: usize = 100;

/// Default age in hours after which a turn may be archived.
pub const DEFAULT_ARCHIVE_AGE_HOURS: u64 = 24;

/// Default similarity threshold for considering two tool outputs duplicates:
/// the number one, as the bits of a double.
pub const DEFAULT_DEDUP_SIMILARITY_THRESHOLD: u64 = 0x3FF0_0000_0000_0000;

/// compactd configuration.
#[derive(Debug, Clone, PartialEq)]
pub struct Config {
    /// Host address to bind.
    pub host: String,
    /// TCP port to listen on.
    pub port: u16,
    /// Directory containing agent session files, as the bytes of its path.
    pub session_dir: Vec<u8>,
    /// Path to the SQLite state database, as its bytes.
    pub database_path: Vec<u8>,
    /// Maximum turns retained in the live context.
    pub max_turns: usize,
    /// Age threshold for archiving turns, in hours.
    pub archive_age_hours: u64,
    /// Similarity threshold for duplicate tool output detection, as the bits of
    /// a double.
    pub dedup_similarity_threshold: u64,
    /// Whether to enable filesystem watching of session_dir.
    pub watch_sessions: bool,
}

/// A configuration as a mathematical value.
pub ghost struct ConfigView {
    pub host: Seq<char>,
    pub port: u16,
    pub session_dir: Seq<u8>,
    pub database_path: Seq<u8>,
    pub max_turns: usize,
    pub archive_age_hours: u64,
    pub dedup_similarity_threshold: u64,
    pub watch_sessions: bool,
}

impl View for Config {
    type V = ConfigView;

    open spec fn view(&self) -> ConfigView {
        ConfigView {
            host: self.host@,
            port: self.port,
            session_dir: self.session_dir@,
            database_path: self.database_path@,
            max_turns: self.max_turns,
            archive_age_hours: self.archive_age_hours,
            dedup_similarity_threshold: self.dedup_similarity_threshold,
            watch_sessions: self.watch_sessions,
        }
    }
}

/// The keys that a configuration file sets.
#[derive(Debug, Clone, PartialEq)]
pub struct ConfigFile {
    pub host: Option<String>,
    pub port: Option<u16>,
    pub session_dir: Option<String>,
    pub database_path: Option<String>,
    pub max_turns: Option<usize>,
    pub archive_age_hours: Option<u64>,
    pub dedup_similarity_threshold: Option<u64>,
    pub watch_sessions: Option<bool>,
}

/// The environment variables `COMPACTD_...` that are set, as texts. The
/// threshold has been parsed: its bits, or what is wrong with it.
#[derive(Debug, Clone, PartialEq)]
pub struct EnvOverrides {
    pub host: Option<String>,
    pub port: Option<String>,
    pub session_dir: Option<String>,
    pub database_path: Option<String>,
    pub max_turns: Option<String>,
    pub archive_age_hours: Option<String>,
    pub dedup_similarity_threshold: Option<Result<u64, String>>,
    pub watch_sessions: Option<String>,
}

/// What is wrong with a text that should be a number.
#[derive(Debug, Clone, Copy, PartialEq, Eq, Structural)]
pub enum NumberError {
    /// The text is empty.
    Empty,
    /// A character is no digit.
    InvalidDigit,
    /// The number is too large.
    PosOverflow,
}

/// Why a configuration could not be loaded.
#[derive(Debug, Clone, PartialEq)]
pub enum ConfigError {
    /// A variable should be a whole number.
    Number(NumberError),
    /// The threshold should be a number.
    Threshold(String),
}

impl ConfigError {
    /// The error in words.
    pub fn message(&self) -> (text: String)
        ensures
            text@ == match *self {
                ConfigError::Number(
                    NumberError::Empty,
                ) => "cannot parse integer from empty string"@,
                ConfigError::Number(
                    NumberError::InvalidDigit,
                ) => "invalid digit found in string"@,
                ConfigError::Number(
                    NumberError::PosOverflow,
                ) => "number too large to fit in target type"@,
                ConfigError::Threshold(cause) => cause@,
            },
    {
        match self {
            ConfigError::Number(NumberError::Empty) => {
                "cannot parse integer from empty string".to_owned()
            },
            ConfigError::Number(NumberError::InvalidDigit) => {
                "invalid digit found in string".to_owned()
            },
            ConfigError::Number(NumberError::PosOverflow) => {
                "number too large to fit in target type".to_owned()
            },
            ConfigError::Threshold(cause) => cause.clone(),
        }
    }
}

// Numbers

/// A decimal digit.
pub open spec fn is_digit(c: char) -> bool {
    '0' <= c <= '9'
}

/// The number that a decimal digit stands for.
pub open spec fn digit_value(c: char) -> nat {
    (c as u32 - '0' as u32) as nat
}

/// The number that digits go on to spell after `acc`, up to `max`. The digits
/// are read from the left, up to the first that is none or makes the number too
/// large.
pub open spec fn read_digits(acc: nat, digits: Seq<char>, max: nat) -> Result<nat, NumberError>
    decreases digits.len(),
{
    if digits.len() == 0 {
        Ok(acc)
    } else if !is_digit(digits[0]) {
        Err(NumberError::InvalidDigit)
    } else if acc * 10 + digit_value(digits[0]) > max {
        Err(NumberError::PosOverflow)
    } else {
        read_digits(acc * 10 + digit_value(digits[0]), digits.drop_first(), max)
    }
}

/// The number that a text spells in decimal, up to `max`. One plus sign may
/// stand before the digits.
pub open spec fn read_number(text: Seq<char>, max: nat) -> Result<nat, NumberError> {
    if text.len() == 0 {
        Err(NumberError::Empty)
    } else if text[0] == '+' && text.len() > 1 {
        read_digits(0, text.drop_first(), max)
    } else {
        read_digits(0, text, max)
    }
}

/// The same outcome, with a number of the mathematical kind.
pub open spec fn same_outcome(
    read: Result<u64, NumberError>,
    expected: Result<nat, NumberError>,
) -> bool {
    match (read, expected) {
        (Ok(n), Ok(m)) => n == m,
        (Err(e), Err(f)) => e == f,
        _ => false,
    }
}

/// The number that a text spells in decimal, up to `max`.
pub fn parse_number(text: &str, max: u64) -> (number: Result<u64, NumberError>)
    ensures
        same_outcome(number, read_number(text@, max as nat)),
        number matches Ok(n) ==> n <= max,
{
    let chars = chars_of(text);
    if chars.len() == 0 {
        return Err(NumberError::Empty);
    }
    let mut i: usize = 0;
    if chars[0] == '+' && chars.len() > 1 {
        i = 1;
    }
    let mut n: u64 = 0;
    proof {
        assert(chars@.skip(0) =~= chars@);
        assert(chars@.skip(1) =~= chars@.drop_first());
    }
    while i < chars.len()
        invariant
            i <= chars@.len(),
            n <= max,
            chars@ == text@,
            read_number(text@, max as nat) == read_digits(
                n as nat,
                chars@.skip(i as int),
                max as nat,
            ),
        decreases chars@.len() - i,
    {
        let c = chars[i];
        proof {
            assert(chars@.skip(i as int)[0] == c);
            assert(chars@.skip(i as int).drop_first() =~= chars@.skip(i + 1));
        }
        if c < '0' || '9' < c {
            return Err(NumberError::InvalidDigit);
        }
        let digit: u64 = c as u64 - '0' as u64;
        if n > max / 10 || (n == max / 10 && digit > max % 10) {
            return Err(NumberError::PosOverflow);
        }
        n = n * 10 + digit;
        i = i + 1;
    }
    Ok(n)
}

// Configurations

/// The configuration that nothing has changed.
pub open spec fn default_config(home: Option<Seq<u8>>, data: Option<Seq<u8>>) -> ConfigView {
    ConfigView {
        host: DEFAULT_HOST@,
        port: DEFAULT_PORT,
        session_dir: expanded(DEFAULT_SESSION_DIR@, home),
        database_path: database_path_in(data),
        max_turns: DEFAULT_MAX_TURNS,
        archive_age_hours: DEFAULT_ARCHIVE_AGE_HOURS,
        dedup_similarity_threshold: DEFAULT_DEDUP_SIMILARITY_THRESHOLD,
        watch_sessions: true,
    }
}

/// The value that is set, or another.
pub open spec fn set_or<T>(set: Option<T>, otherwise: T) -> T {
    match set {
        Some(value) => value,
        None => otherwise,
    }
}

/// The bytes of a path that is written as text.
pub open spec fn written_path(path: Option<String>) -> Option<Seq<u8>> {
    match path {
        Some(text) => Some(encode_utf8(text@)),
        None => None,
    }
}

/// A configuration with the keys that a file sets.
pub open spec fn with_file(file: ConfigFile, config: ConfigView) -> ConfigView {
    ConfigView {
        host: set_or(text_in(file.host), config.host),
        port: set_or(file.port, config.port),
        session_dir: set_or(written_path(file.session_dir), config.session_dir),
        database_path: set_or(written_path(file.database_path), config.database_path),
        max_turns: set_or(file.max_turns, config.max_turns),
        archive_age_hours: set_or(file.archive_age_hours, config.archive_age_hours),
        dedup_similarity_threshold: set_or(
            file.dedup_similarity_threshold,
            config.dedup_similarity_threshold,
        ),
        watch_sessions: set_or(file.watch_sessions, config.watch_sessions),
    }
}

/// The number that a variable holds, if it is set and spells one.
pub open spec fn number_in(variable: Option<String>, max: nat) -> Option<nat> {
    match variable {
        Some(text) => match read_number(text@, max) {
            Ok(n) => Some(n),
            Err(_) => None,
        },
        None => None,
    }
}

/// What is wrong with the number in a variable.
pub open spec fn number_error(variable: Option<String>, max: nat) -> Option<ConfigError> {
    match variable {
        Some(text) => match read_number(text@, max) {
            Ok(_) => None,
            Err(e) => Some(ConfigError::Number(e)),
        },
        None => None,
    }
}

/// What is wrong with the threshold.
pub open spec fn threshold_error(variable: Option<Result<u64, String>>) -> Option<ConfigError> {
    match variable {
        Some(Err(cause)) => Some(ConfigError::Threshold(cause)),
        _ => None,
    }
}

/// What is wrong with the first variable that something is wrong with.
pub open spec fn first_error(env: EnvOverrides) -> Option<ConfigError> {
    let port = number_error(env.port, u16::MAX as nat);
    let turns = number_error(env.max_turns, usize::MAX as nat);
    let age = number_error(env.archive_age_hours, u64::MAX as nat);
    let threshold = threshold_error(env.dedup_similarity_threshold);
    let watch = number_error(env.watch_sessions, u8::MAX as nat);
    if port is Some {
        port
    } else if turns is Some {
        turns
    } else if age is Some {
        age
    } else if threshold is Some {
        threshold
    } else {
        watch
    }
}

/// A configuration with the variables that are set.
pub open spec fn with_env(env: EnvOverrides, config: ConfigView) -> ConfigView {
    ConfigView {
        host: set_or(text_in(env.host), config.host),
        port: match number_in(env.port, u16::MAX as nat) {
            Some(n) => n as u16,
            None => config.port,
        },
        session_dir: set_or(written_path(env.session_dir), config.session_dir),
        database_path: set_or(written_path(env.database_path), config.database_path),
        max_turns: match number_in(env.max_turns, usize::MAX as nat) {
            Some(n) => n as usize,
            None => config.max_turns,
        },
        archive_age_hours: match number_in(env.archive_age_hours, u64::MAX as nat) {
            Some(n) => n as u64,
            None => config.archive_age_hours,
        },
        dedup_similarity_threshold: match env.dedup_similarity_threshold {
            Some(Ok(bits)) => bits,
            _ => config.dedup_similarity_threshold,
        },
        watch_sessions: match number_in(env.watch_sessions, u8::MAX as nat) {
            Some(n) => n != 0,
            None => config.watch_sessions,
        },
    }
}

/// A configuration with the user's home spelled out in its paths.
pub open spec fn with_home(home: Option<Seq<u8>>, config: ConfigView) -> ConfigView {
    ConfigView {
        session_dir: expanded_path(config.session_dir, home),
        database_path: expanded_path(config.database_path, home),
        ..config
    }
}

/// The configuration before the environment is looked at.
pub open spec fn file_config(
    file: Option<ConfigFile>,
    home: Option<Seq<u8>>,
    data: Option<Seq<u8>>,
) -> ConfigView {
    match file {
        Some(f) => with_file(f, default_config(home, data)),
        None => default_config(home, data),
    }
}

/// The configuration that is loaded from a file, if there is one, and the
/// environment.
pub open spec fn loaded_config(
    file: Option<ConfigFile>,
    env: EnvOverrides,
    home: Option<Seq<u8>>,
    data: Option<Seq<u8>>,
) -> ConfigView {
    with_home(home, with_env(env, file_config(file, home, data)))
}

/// The outcome of loading a configuration.
pub open spec fn loads(
    file: Option<ConfigFile>,
    env: EnvOverrides,
    home: Option<Seq<u8>>,
    data: Option<Seq<u8>>,
    outcome: Result<Config, ConfigError>,
) -> bool {
    match outcome {
        Ok(config) => first_error(env) is None && config@ == loaded_config(file, env, home, data),
        Err(error) => first_error(env) == Some(error),
    }
}

fn string_or(set: Option<String>, otherwise: String) -> (text: String)
    ensures
        text@ == set_or(text_in(set), otherwise@),
{
    match set {
        Some(text) => text,
        None => otherwise,
    }
}

fn path_or(set: Option<String>, otherwise: Vec<u8>) -> (path: Vec<u8>)
    ensures
        path@ == set_or(written_path(set), otherwise@),
{
    match set {
        Some(text) => bytes_of(text.as_str()),
        None => otherwise,
    }
}

fn number_of(variable: &Option<String>, max: u64) -> (outcome: Result<Option<u64>, ConfigError>)
    ensures
        match outcome {
            Ok(Some(n)) => {
                &&& number_in(*variable, max as nat) == Some(n as nat)
                &&& number_error(*variable, max as nat) is None
                &&& n <= max
            },
            Ok(None) => {
                &&& number_in(*variable, max as nat) is None
                &&& number_error(*variable, max as nat) is None
            },
            Err(e) => number_error(*variable, max as nat) == Some(e),
        },
{
    match variable {
        Some(text) => match parse_number(text.as_str(), max) {
            Ok(n) => Ok(Some(n)),
            Err(e) => Err(ConfigError::Number(e)),
        },
        None => Ok(None),
    }
}

impl Config {
    /// The configuration that nothing has changed, with the given directories.
    pub fn default_in(home: &Option<Vec<u8>>, data: &Option<Vec<u8>>) -> (config: Config)
        ensures
            config@ == default_config(path_in(*home), path_in(*data)),
    {
        Config {
            host: DEFAULT_HOST.to_owned(),
            port: DEFAULT_PORT,
            session_dir: expand_home_in(DEFAULT_SESSION_DIR, home),
            database_path: default_database_path(data),
            max_turns: DEFAULT_MAX_TURNS,
            archive_age_hours: DEFAULT_ARCHIVE_AGE_HOURS,
            dedup_similarity_threshold: DEFAULT_DEDUP_SIMILARITY_THRESHOLD,
            watch_sessions: true,
        }
    }

    /// The default path of the configuration file, under a directory for
    /// configuration.
    pub fn default_path_in(dir: &Option<Vec<u8>>) -> (path: Vec<u8>)
        ensures
            path@ == config_path_in(path_in(*dir)),
    {
        default_config_path(dir)
    }

    /// Return the default configuration file path (`~/.config/compactd/config.toml`).
    pub fn default_path() -> (path: Vec<u8>)
        ensures
            exists|dir: Option<Seq<u8>>| path@ == #[trigger] config_path_in(dir),
    {
        let dir = config_dir();
        Config::default_path_in(&dir)
    }

    /// The configuration with the keys that a file sets.
    pub fn with_file(self, file: ConfigFile) -> (config: Config)
        ensures
            config@ == with_file(file, self@),
    {
        Config {
            host: string_or(file.host, self.host),
            port: match file.port {
                Some(port) => port,
                None => self.port,
            },
            session_dir: path_or(file.session_dir, self.session_dir),
            database_path: path_or(file.database_path, self.database_path),
            max_turns: match file.max_turns {
                Some(max) => max,
                None => self.max_turns,
            },
            archive_age_hours: match file.archive_age_hours {
                Some(age) => age,
                None => self.archive_age_hours,
            },
            dedup_similarity_threshold: match file.dedup_similarity_threshold {
                Some(threshold) => threshold,
                None => self.dedup_similarity_threshold,
            },
            watch_sessions: match file.watch_sessions {
                Some(watch) => watch,
                None => self.watch_sessions,
            },
        }
    }

    /// The configuration with the environment variables that are set.
    ///
    /// # Errors
    ///
    /// Returns what is wrong with the first variable that should hold a number
    /// and does not.
    pub fn apply_env_overrides(self, env: EnvOverrides) -> (outcome: Result<Config, ConfigError>)
        ensures
            match outcome {
                Ok(config) => first_error(env) is None && config@ == with_env(env, self@),
                Err(error) => first_error(env) == Some(error),
            },
    {
        let port = match number_of(&env.port, u16::MAX as u64) {
            Ok(port) => port,
            Err(error) => return Err(error),
        };
        let max_turns = match number_of(&env.max_turns, usize::MAX as u64) {
            Ok(max) => max,
            Err(error) => return Err(error),
        };
        let age = match number_of(&env.archive_age_hours, u64::MAX) {
            Ok(age) => age,
            Err(error) => return Err(error),
        };
        let threshold = match env.dedup_similarity_threshold {
            Some(Ok(bits)) => Some(bits),
            Some(Err(cause)) => return Err(ConfigError::Threshold(cause)),
            None => None,
        };
        let watch = match number_of(&env.watch_sessions, u8::MAX as u64) {
            Ok(watch) => watch,
            Err(error) => return Err(error),
        };
        Ok(
            Config {
                host: string_or(env.host, self.host),
                port: match port {
                    Some(n) => n as u16,
                    None => self.port,
                },
                session_dir: path_or(env.session_dir, self.session_dir),
                database_path: path_or(env.database_path, self.database_path),
                max_turns: match max_turns {
                    Some(n) => n as usize,
                    None => self.max_turns,
                },
                archive_age_hours: match age {
                    Some(n) => n,
                    None => self.archive_age_hours,
                },
                dedup_similarity_threshold: match threshold {
                    Some(bits) => bits,
                    None => self.dedup_similarity_threshold,
                },
                watch_sessions: match watch {
                    Some(n) => n != 0,
                    None => self.watch_sessions,
                },
            },
        )
    }

    /// Loads a configuration with the given directories of the user: the keys
    /// of the file, if there is one, over the defaults; the environment over
    /// both; and the home spelled out in the paths.
    ///
    /// # Errors
    ///
    /// Returns what is wrong with the first variable that should hold a number
    /// and does not.
    pub fn load_in(
        file: Option<ConfigFile>,
        env: EnvOverrides,
        home: &Option<Vec<u8>>,
        data: &Option<Vec<u8>>,
    ) -> (outcome: Result<Config, ConfigError>)
        ensures
            loads(file, env, path_in(*home), path_in(*data), outcome),
    {
        let default = Config::default_in(home, data);
        let config = match file {
            Some(file) => default.with_file(file),
            None => default,
        };
        match config.apply_env_overrides(env) {
            Ok(config) => {
                let session_dir = expand_home_path_in(&config.session_dir, home);
                let database_path = expand_home_path_in(&config.database_path, home);
                Ok(Config { session_dir, database_path, ..config })
            },
            Err(error) => Err(error),
        }
    }

    /// Load configuration from what a TOML file holds, falling back to defaults
    /// for missing keys. Environment variables prefixed with `COMPACTD_`
    /// override file values.
    ///
    /// # Errors
    ///
    /// Returns what is wrong with the first variable that should hold a number
    /// and does not.
    pub fn load(file: Option<ConfigFile>, env: EnvOverrides) -> (outcome: Result<
        Config,
        ConfigError,
    >)
        ensures
            exists|home: Option<Seq<u8>>, data: Option<Seq<u8>>| #[trigger]
                loads(file, env, home, data, outcome),
    {
        let home = home_dir();
        let data = data_dir();
        Config::load_in(file, env, &home, &data)
    }
}

impl Default for Config {
    fn default() -> (config: Config)
        ensures
            exists|home: Option<Seq<u8>>, data: Option<Seq<u8>>|
                config@ == #[trigger] default_config(home, data),
    {
        let home = home_dir();
        let data = data_dir();
        Config::default_in(&home, &data)
    }
}

// What holds of configurations

/// What the environment sets wins over the file, what the file sets over the
/// default, and the default stands where neither sets anything.
pub proof fn law_precedence(
    file: ConfigFile,
    env: EnvOverrides,
    home: Option<Seq<u8>>,
    data: Option<Seq<u8>>,
)
    ensures
        ({
            let config = with_env(env, file_config(Some(file), home, data));
            let default = default_config(home, data);
            &&& env.host matches Some(h) ==> config.host == h@
            &&& env.host is None ==> (file.host matches Some(h) ==> config.host == h@)
            &&& env.host is None && file.host is None ==> config.host == default.host
            &&& number_in(env.port, u16::MAX as nat) matches Some(n) ==> config.port == n
            &&& env.port is None ==> (file.port matches Some(p) ==> config.port == p)
            &&& env.port is None && file.port is None ==> config.port == default.port
            &&& env.session_dir matches Some(d) ==> config.session_dir == encode_utf8(d@)
            &&& env.session_dir is None ==> (file.session_dir matches Some(d)
                ==> config.session_dir == encode_utf8(d@))
            &&& env.session_dir is None && file.session_dir is None ==> config.session_dir
                == default.session_dir
            &&& env.database_path matches Some(d) ==> config.database_path == encode_utf8(d@)
            &&& env.database_path is None ==> (file.database_path matches Some(d)
                ==> config.database_path == encode_utf8(d@))
            &&& env.database_path is None && file.database_path is None ==> config.database_path
                == default.database_path
            &&& number_in(env.max_turns, usize::MAX as nat) matches Some(n) ==> config.max_turns
                == n
            &&& env.max_turns is None ==> (file.max_turns matches Some(m) ==> config.max_turns == m)
            &&& env.max_turns is None && file.max_turns is None ==> config.max_turns
                == default.max_turns
            &&& number_in(env.archive_age_hours, u64::MAX as nat) matches Some(n)
                ==> config.archive_age_hours == n
            &&& env.archive_age_hours is None ==> (file.archive_age_hours matches Some(a)
                ==> config.archive_age_hours == a)
            &&& env.archive_age_hours is None && file.archive_age_hours is None
                ==> config.archive_age_hours == default.archive_age_hours
            &&& env.dedup_similarity_threshold matches Some(Ok(bits))
                ==> config.dedup_similarity_threshold == bits
            &&& env.dedup_similarity_threshold is None ==> (
            file.dedup_similarity_threshold matches Some(bits)
                ==> config.dedup_similarity_threshold == bits)
            &&& env.dedup_similarity_threshold is None && file.dedup_similarity_threshold is None
                ==> config.dedup_similarity_threshold == default.dedup_similarity_threshold
            &&& number_in(env.watch_sessions, u8::MAX as nat) matches Some(n)
                ==> config.watch_sessions == (n != 0)
            &&& env.watch_sessions is None ==> (file.watch_sessions matches Some(w)
                ==> config.watch_sessions == w)
            &&& env.watch_sessions is None && file.watch_sessions is None
                ==> config.watch_sessions == default.watch_sessions
        }),
{
    if let Some(text) = env.port {
        lemma_read_bounded(text@, u16::MAX as nat);
    }
    if let Some(text) = env.max_turns {
        lemma_read_bounded(text@, usize::MAX as nat);
    }
    if let Some(text) = env.archive_age_hours {
        lemma_read_bounded(text@, u64::MAX as nat);
    }
}

proof fn lemma_digits_bounded(acc: nat, digits: Seq<char>, max: nat)
    requires
        acc <= max,
    ensures
        read_digits(acc, digits, max) matches Ok(n) ==> n <= max,
    decreases digits.len(),
{
    if digits.len() > 0 && is_digit(digits[0]) && acc * 10 + digit_value(digits[0]) <= max {
        lemma_digits_bounded(acc * 10 + digit_value(digits[0]), digits.drop_first(), max);
    }
}

/// A number that is read is at most the largest.
pub proof fn lemma_read_bounded(text: Seq<char>, max: nat)
    ensures
        read_number(text, max) matches Ok(n) ==> n <= max,
{
    lemma_digits_bounded(0, text, max);
    lemma_digits_bounded(0, text.drop_first(), max);
}

proof fn lemma_digits_push(acc: nat, digits: Seq<char>, c: char, max: nat)
    ensures
        read_digits(acc, digits.push(c), max) == match read_digits(acc, digits, max) {
            Ok(n) => read_digits(n, seq![c], max),
            Err(e) => Err(e),
        },
    decreases digits.len(),
{
    if digits.len() == 0 {
        assert(digits.push(c) =~= seq![c]);
    } else {
        assert(digits.push(c).drop_first() =~= digits.drop_first().push(c));
        if is_digit(digits[0]) && acc * 10 + digit_value(digits[0]) <= max {
            lemma_digits_push(acc * 10 + digit_value(digits[0]), digits.drop_first(), c, max);
        }
    }
}

proof fn lemma_one_digit(acc: nat, d: nat, max: nat)
    requires
        d < 10,
        acc * 10 + d <= max,
    ensures
        read_digits(acc, seq![digit_char(d)], max) == Ok::<nat, NumberError>(acc * 10 + d),
{
    let digits = seq![digit_char(d)];
    assert(digits.drop_first() =~= Seq::empty());
    reveal_with_fuel(read_digits, 2);
}

proof fn lemma_decimal_digits(n: nat, max: nat)
    requires
        n <= max,
    ensures
        read_digits(0, decimal(n), max) == Ok::<nat, NumberError>(n),
        decimal(n).len() > 0,
        is_digit(decimal(n)[0]),
    decreases n,
{
    if n < 10 {
        lemma_one_digit(0, n, max);
    } else {
        lemma_decimal_digits(n / 10, max);
        lemma_digits_push(0, decimal(n / 10), digit_char(n % 10), max);
        lemma_one_digit(n / 10, n % 10, max);
    }
}

/// A number that is written in decimal is read as that number.
pub proof fn law_decimal_read_back(n: nat, max: nat)
    requires
        n <= max,
    ensures
        read_number(decimal(n), max) == Ok::<nat, NumberError>(n),
{
    lemma_decimal_digits(n, max);
}

} // verus!
