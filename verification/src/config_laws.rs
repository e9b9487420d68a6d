//! What holds of configurations that are loaded, key by key, and of paths.

use vstd::prelude::*;
use vstd::utf8::{
    decode_utf8, decode_utf8_encode_utf8, encode_utf8, encode_utf8_decode_utf8,
    encode_utf8_valid_utf8, valid_utf8, valid_utf8_concat,
};

use crate::config::{
    default_config, file_config, lemma_read_bounded, loads, read_digits, read_number, same_outcome,
    with_env, Config, ConfigError, ConfigFile, EnvOverrides, NumberError,
};
use crate::paths::{config_path_in, database_path_in, expanded, expanded_path, joined, path_text};
use crate::text_laws::law_bytes_joined;

verus! {

// Numbers

proof fn lemma_digits_then(acc: nat, digits: Seq<char>, c: char, max: nat)
    ensures
        read_digits(acc, digits.push(c), max) == match read_digits(acc, digits, max) {
            Ok(n) => read_digits(n, seq![c], max),
            Err(e) => Err(e),
        },
    decreases digits.len(),
{
    if digits.len() == 0 {
        assert(digits.push(c) =~= seq![c]);
    } else {
        assert(digits.push(c).drop_first() =~= digits.drop_first().push(c));
        assert(digits.push(c)[0] == digits[0]);
        if 48 <= digits[0] as u32 <= 57 {
            let next = (acc * 10 + (digits[0] as u32 - 48)) as nat;
            if next <= max {
                lemma_digits_then(next, digits.drop_first(), c, max);
            }
        }
    }
}

proof fn lemma_digit(acc: nat, c: char, max: nat)
    ensures
        read_digits(acc, seq![c], max) == if !(48 <= c as u32 <= 57) {
            Err::<nat, NumberError>(NumberError::InvalidDigit)
        } else if acc * 10 + (c as u32 - 48) > max {
            Err::<nat, NumberError>(NumberError::PosOverflow)
        } else {
            Ok::<nat, NumberError>((acc * 10 + (c as u32 - 48)) as nat)
        },
{
    assert(seq![c].drop_first() =~= Seq::empty());
    reveal_with_fuel(read_digits, 2);
}

/// An empty text is no number. One character is a number if it is a digit from 0 to
/// 9. A text that is a number, and then a digit, are ten times the number and the
/// digit, if that is not too large; what follows a text that is none does not mend
/// it. One plus sign may stand before the first digit, and nothing else but digits.
pub proof fn law_number_read_by_digits(text: Seq<char>, c: char, max: nat)
    ensures
        read_number(Seq::empty(), max) == Err::<nat, NumberError>(NumberError::Empty),
        read_number(seq![c], max) == if !(48 <= c as u32 <= 57) {
            Err::<nat, NumberError>(NumberError::InvalidDigit)
        } else if c as u32 - 48 > max {
            Err::<nat, NumberError>(NumberError::PosOverflow)
        } else {
            Ok::<nat, NumberError>((c as u32 - 48) as nat)
        },
        text.len() > 0 && text != seq!['+'] ==> read_number(text.push(c), max) == match read_number(
            text,
            max,
        ) {
            Ok(n) => if !(48 <= c as u32 <= 57) {
                Err::<nat, NumberError>(NumberError::InvalidDigit)
            } else if n * 10 + (c as u32 - 48) > max {
                Err::<nat, NumberError>(NumberError::PosOverflow)
            } else {
                Ok::<nat, NumberError>((n * 10 + (c as u32 - 48)) as nat)
            },
            Err(e) => Err::<nat, NumberError>(e),
        },
        text.len() > 0 ==> read_number(seq!['+'] + text, max) == if text[0] == '+' {
            Err::<nat, NumberError>(NumberError::InvalidDigit)
        } else {
            read_number(text, max)
        },
{
    lemma_digit(0, c, max);
    if text.len() > 0 {
        assert((seq!['+'] + text).drop_first() =~= text);
        if text[0] == '+' && text.len() > 1 {
            assert(text.push(c).drop_first() =~= text.drop_first().push(c));
            lemma_digits_then(0, text.drop_first(), c, max);
            if let Ok(n) = read_digits(0, text.drop_first(), max) {
                lemma_digit(n, c, max);
            }
        } else if text[0] == '+' {
            assert(text =~= seq!['+']);
        } else {
            lemma_digits_then(0, text, c, max);
            if let Ok(n) = read_digits(0, text, max) {
                lemma_digit(n, c, max);
            }
        }
    }
}

/// The outcome of reading a number is the number that the text spells, or what is
/// wrong with the text.
pub proof fn law_outcome_of_number(read: Result<u64, NumberError>, text: Seq<char>, max: u64)
    requires
        same_outcome(read, read_number(text, max as nat)),
    ensures
        read matches Ok(n) ==> read_number(text, max as nat) == Ok::<nat, NumberError>(n as nat),
        read matches Err(e) ==> read_number(text, max as nat) == Err::<nat, NumberError>(e),
{
}

// Paths

proof fn lemma_ascii_first(text: Seq<char>)
    requires
        text.len() > 0,
    ensures
        encode_utf8(text).len() > 0,
        (text[0] as u32) < 0x80 ==> encode_utf8(text)[0] == text[0] as u32,
        (text[0] as u32) >= 0x80 ==> encode_utf8(text)[0] >= 0x80,
        encode_utf8(text)[0] == 47 <==> text[0] == '/',
        encode_utf8(text)[0] == 126 <==> text[0] == '~',
{
    let c = text[0] as u32;
    vstd::utf8::char_u32_cast(text[0], c);
    vstd::utf8::char_is_scalar(text[0]);
    if c < 0x80 {
        assert(vstd::utf8::leading_byte_width_1(c) == c) by (bit_vector)
            requires
                c < 0x80,
        ;
    } else if c < 0x800 {
        assert(vstd::utf8::leading_byte_width_2(c) >= 0x80) by (bit_vector)
            requires
                c < 0x800,
        ;
    } else if c < 0x1_0000 {
        assert(vstd::utf8::leading_byte_width_3(c) >= 0x80) by (bit_vector)
            requires
                c < 0x1_0000,
        ;
    } else {
        assert(vstd::utf8::leading_byte_width_4(c) >= 0x80) by (bit_vector)
            requires
                c < 0x11_0000,
        ;
    }
}

/// What stands between a directory and a path below it: a slash, unless the
/// directory ends in one or is empty.
pub open spec fn slash_after(dir: Seq<u8>) -> Seq<u8> {
    if dir.len() > 0 && dir[dir.len() - 1] != 47 {
        seq![47u8]
    } else {
        Seq::empty()
    }
}

/// A path below a directory is the directory, a slash and the path. A path that
/// begins with a slash stays as it is.
pub proof fn law_path_joined(dir: Seq<u8>, path: Seq<u8>)
    ensures
        path.len() > 0 && path[0] == 47 ==> joined(dir, path) == path,
        path.len() == 0 || path[0] != 47 ==> joined(dir, path) == dir + slash_after(dir) + path,
{
    if path.len() == 0 || path[0] != 47 {
        assert(joined(dir, path) =~= dir + slash_after(dir) + path);
    }
}

/// A text as a path, with the home spelled out: where it begins with `~/` and the
/// home is known, the home takes the place of the `~`. Any other text stays as it
/// is.
pub open spec fn home_spelled_out(text: Seq<char>, home: Option<Seq<u8>>) -> Seq<u8> {
    if home is Some && text.len() >= 2 && text[0] == '~' && text[1] == '/' {
        if text.len() > 2 && text[2] == '/' {
            encode_utf8(text.skip(2))
        } else {
            home->Some_0 + slash_after(home->Some_0) + encode_utf8(text.skip(2))
        }
    } else {
        encode_utf8(text)
    }
}

/// A path that is given as text is taken as it is, with the home spelled out. So is
/// one that is given as the bytes of a text.
pub proof fn law_home_spelled_out(text: Seq<char>, home: Option<Seq<u8>>)
    ensures
        expanded(text, home) == home_spelled_out(text, home),
        expanded_path(encode_utf8(text), home) == home_spelled_out(text, home),
{
    encode_utf8_valid_utf8(text);
    encode_utf8_decode_utf8(text);
    if home is Some && text.len() >= 2 && text[0] == '~' && text[1] == '/' {
        let rest = text.skip(2);
        law_path_joined(home->Some_0, encode_utf8(rest));
        if rest.len() > 0 {
            lemma_ascii_first(rest);
            assert(rest[0] == text[2]);
        }
    }
}

/// Bytes that begin with `~/`.
pub open spec fn begins_in_home(path: Seq<u8>) -> bool {
    path.len() >= 2 && path[0] == 126 && path[1] == 47
}

proof fn lemma_begins_in_home(text: Seq<char>)
    ensures
        begins_in_home(encode_utf8(text)) ==> text.len() >= 2 && text[0] == '~' && text[1] == '/',
{
    if text.len() > 0 {
        lemma_ascii_first(text);
        if text[0] == '~' {
            assert(text =~= seq![text[0]] + text.drop_first());
            assert(vstd::utf8::leading_byte_width_1(126u32) == 126u8) by (bit_vector);
            assert(encode_utf8(text).skip(1) =~= encode_utf8(text.drop_first()));
            if text.len() > 1 {
                lemma_ascii_first(text.drop_first());
                assert(encode_utf8(text)[1] == encode_utf8(text.drop_first())[0]);
            } else {
                assert(text.drop_first() =~= Seq::empty());
                assert(encode_utf8(text.drop_first()) =~= Seq::empty());
            }
        }
    }
}

/// Where the home is known and absolute, no path begins with `~/` once the home is
/// spelled out, whatever the path was.
pub proof fn law_no_home_left(path: Seq<u8>, home: Seq<u8>)
    requires
        home.len() > 0,
        home[0] == 47,
    ensures
        !begins_in_home(expanded_path(path, Some(home))),
{
    let text = path_text(path);
    law_home_spelled_out(text, Some(home));
    if text.len() >= 2 && text[0] == '~' && text[1] == '/' {
        if text.len() > 2 && text[2] == '/' {
            lemma_ascii_first(text.skip(2));
        } else {
            assert(home_spelled_out(text, Some(home))[0] == home[0]);
        }
    } else {
        lemma_begins_in_home(text);
    }
}

/// The paths of the database and of the configuration file below the user's
/// directories, and where there are none.
pub proof fn law_default_paths(dir: Seq<u8>)
    ensures
        database_path_in(None) == encode_utf8("compactd.db"@),
        database_path_in(Some(dir)) == dir + slash_after(dir) + encode_utf8("compactd/state.db"@),
        config_path_in(None) == encode_utf8("compactd.toml"@),
        config_path_in(Some(dir)) == dir + slash_after(dir) + encode_utf8("compactd/config.toml"@),
{
    reveal_strlit("compactd");
    reveal_strlit("/");
    reveal_strlit("state.db");
    reveal_strlit("config.toml");
    reveal_strlit("compactd/state.db");
    reveal_strlit("compactd/config.toml");
    let name = encode_utf8("compactd"@);
    lemma_ascii_first("compactd"@);
    lemma_ascii_first("state.db"@);
    lemma_ascii_first("config.toml"@);
    lemma_ascii_last("compactd"@.drop_last(), 'd');
    assert("compactd"@ =~= "compactd"@.drop_last().push('d'));
    law_path_joined(dir, name);
    let below = dir + slash_after(dir) + name;
    assert(below.last() == name.last());
    law_path_joined(below, encode_utf8("state.db"@));
    law_path_joined(below, encode_utf8("config.toml"@));
    lemma_slash();
    law_bytes_joined("compactd"@, "/"@);
    law_bytes_joined("compactd"@ + "/"@, "state.db"@);
    law_bytes_joined("compactd"@ + "/"@, "config.toml"@);
    assert("compactd"@ + "/"@ + "state.db"@ =~= "compactd/state.db"@);
    assert("compactd"@ + "/"@ + "config.toml"@ =~= "compactd/config.toml"@);
    assert(slash_after(below) =~= seq![47u8]);
    assert(below + seq![47u8] + encode_utf8("state.db"@) =~= dir + slash_after(dir) + (name
        + seq![47u8] + encode_utf8("state.db"@)));
    assert(below + seq![47u8] + encode_utf8("config.toml"@) =~= dir + slash_after(dir) + (name
        + seq![47u8] + encode_utf8("config.toml"@)));
}

proof fn lemma_slash()
    ensures
        encode_utf8("/"@) == seq![47u8],
{
    reveal_strlit("/");
    assert("/"@ =~= seq!['/']);
    assert(seq!['/'].drop_first() =~= Seq::empty());
    reveal_with_fuel(encode_utf8, 2);
    assert(vstd::utf8::leading_byte_width_1(47u32) == 47u8) by (bit_vector);
    assert(encode_utf8("/"@) =~= seq![47u8]);
}

proof fn lemma_ascii_last(text: Seq<char>, c: char)
    requires
        (c as u32) < 0x80,
    ensures
        encode_utf8(text.push(c)).len() > 0,
        encode_utf8(text.push(c)).last() == c as u32,
{
    law_bytes_joined(text, seq![c]);
    assert(text + seq![c] =~= text.push(c));
    lemma_ascii_first(seq![c]);
    assert(seq![c].drop_first() =~= Seq::empty());
    reveal_with_fuel(encode_utf8, 2);
    assert(encode_utf8(seq![c]).len() == 1);
}

// Configurations

/// What the environment or else the file sets for a path.
pub open spec fn path_set(env: Option<String>, file: Option<String>) -> Option<Seq<char>> {
    match (env, file) {
        (Some(text), _) => Some(text@),
        (None, Some(text)) => Some(text@),
        (None, None) => None,
    }
}

/// The path that a file sets for the sessions.
pub open spec fn file_session_dir(file: Option<ConfigFile>) -> Option<String> {
    match file {
        Some(f) => f.session_dir,
        None => None,
    }
}

/// The path that a file sets for the database.
pub open spec fn file_database_path(file: Option<ConfigFile>) -> Option<String> {
    match file {
        Some(f) => f.database_path,
        None => None,
    }
}

/// In a configuration that is loaded, both the directory of the sessions and the
/// path of the database are what the environment or else the file sets, with the
/// home spelled out.
pub proof fn law_loaded_paths(
    file: Option<ConfigFile>,
    env: EnvOverrides,
    home: Option<Seq<u8>>,
    data: Option<Seq<u8>>,
    config: Config,
)
    requires
        loads(file, env, home, data, Ok(config)),
    ensures
        path_set(env.session_dir, file_session_dir(file)) matches Some(text)
            ==> config.session_dir@ == home_spelled_out(text, home),
        path_set(env.database_path, file_database_path(file)) matches Some(text)
            ==> config.database_path@ == home_spelled_out(text, home),
{
    if let Some(text) = path_set(env.session_dir, file_session_dir(file)) {
        law_home_spelled_out(text, home);
    }
    if let Some(text) = path_set(env.database_path, file_database_path(file)) {
        law_home_spelled_out(text, home);
    }
}

/// In a configuration that is loaded, neither path begins with `~/`, where the home
/// is known and absolute.
pub proof fn law_loaded_paths_without_home(
    file: Option<ConfigFile>,
    env: EnvOverrides,
    home: Seq<u8>,
    data: Option<Seq<u8>>,
    config: Config,
)
    requires
        home.len() > 0,
        home[0] == 47,
        loads(file, env, Some(home), data, Ok(config)),
    ensures
        !begins_in_home(config.session_dir@),
        !begins_in_home(config.database_path@),
{
    let read = with_env(
        env,
        file_config(file, Some(home), data),
    );
    law_no_home_left(read.session_dir, home);
    law_no_home_left(read.database_path, home);
}

proof fn lemma_absolute_kept(dir: Seq<u8>, rest: Seq<char>, home: Option<Seq<u8>>)
    requires
        dir.len() > 0,
        dir[0] == 47,
        valid_utf8(dir),
    ensures
        expanded_path(dir + slash_after(dir) + encode_utf8(rest), home) == dir + slash_after(dir)
            + encode_utf8(rest),
{
    let path = dir + slash_after(dir) + encode_utf8(rest);
    lemma_slash();
    encode_utf8_valid_utf8("/"@);
    encode_utf8_valid_utf8(rest);
    valid_utf8_concat(dir, seq![47u8]);
    valid_utf8_concat(dir + seq![47u8], encode_utf8(rest));
    valid_utf8_concat(dir, encode_utf8(rest));
    assert(dir + Seq::<u8>::empty() =~= dir);
    assert(valid_utf8(path));
    decode_utf8_encode_utf8(path);
    let text = decode_utf8(path);
    assert(path[0] == 47);
    if text.len() == 0 {
        assert(encode_utf8(text) =~= Seq::empty());
    }
    lemma_ascii_first(text);
    law_home_spelled_out(text, home);
}

/// Where neither the environment nor the file sets a path, the sessions are looked
/// for in `.config/kimi/sessions` below the home, and the database is `state.db` in
/// `compactd` below the user's directory for data, or `compactd.db` where there is
/// none. This is stated of directories that are absolute and text.
pub proof fn law_loaded_default_paths(
    file: Option<ConfigFile>,
    env: EnvOverrides,
    home: Seq<u8>,
    data: Option<Seq<u8>>,
    config: Config,
)
    requires
        home.len() > 0,
        home[0] == 47,
        valid_utf8(home),
        data matches Some(dir) ==> dir.len() > 0 && dir[0] == 47 && valid_utf8(dir),
        loads(file, env, Some(home), data, Ok(config)),
    ensures
        path_set(env.session_dir, file_session_dir(file)) is None ==> config.session_dir@ == home
            + slash_after(home) + encode_utf8(".config/kimi/sessions"@),
        path_set(env.database_path, file_database_path(file)) is None ==> config.database_path@
            == match data {
            Some(dir) => dir + slash_after(dir) + encode_utf8("compactd/state.db"@),
            None => encode_utf8("compactd.db"@),
        },
{
    let whole = "~/.config/kimi/sessions"@;
    reveal_strlit("~/.config/kimi/sessions");
    reveal_strlit(".config/kimi/sessions");
    assert(whole.skip(2) =~= ".config/kimi/sessions"@);
    law_home_spelled_out(whole, Some(home));
    lemma_absolute_kept(home, ".config/kimi/sessions"@, Some(home));
    match data {
        Some(dir) => {
            law_default_paths(dir);
            lemma_absolute_kept(dir, "compactd/state.db"@, Some(home));
        },
        None => {
            reveal_strlit("compactd.db");
            law_home_spelled_out("compactd.db"@, Some(home));
        },
    }
}

/// The configuration that nothing has changed: the host 127.0.0.1, the port 3103, the
/// directory `~/.config/kimi/sessions` with the home spelled out, a hundred turns,
/// twenty-four hours, the threshold one, and watching.
pub proof fn law_default_keys(home: Option<Seq<u8>>, data: Option<Seq<u8>>)
    ensures
        ({
            let config = default_config(home, data);
            &&& config.host == "127.0.0.1"@
            &&& config.port == 3103
            &&& config.session_dir == home_spelled_out("~/.config/kimi/sessions"@, home)
            &&& config.database_path == match data {
                Some(dir) => dir + slash_after(dir) + encode_utf8("compactd/state.db"@),
                None => encode_utf8("compactd.db"@),
            }
            &&& config.max_turns == 100
            &&& config.archive_age_hours == 24
            &&& config.dedup_similarity_threshold == 0x3FF0_0000_0000_0000
            &&& config.watch_sessions
        }),
{
    law_home_spelled_out("~/.config/kimi/sessions"@, home);
    match data {
        Some(dir) => law_default_paths(dir),
        None => {},
    }
}

/// Where the home is not known and no path is set, the directory of the sessions is
/// loaded as it is written.
pub proof fn law_loaded_without_home(
    file: Option<ConfigFile>,
    env: EnvOverrides,
    data: Option<Seq<u8>>,
    config: Config,
)
    requires
        path_set(env.session_dir, file_session_dir(file)) is None,
        loads(file, env, None, data, Ok(config)),
    ensures
        config.session_dir@ == encode_utf8("~/.config/kimi/sessions"@),
{
    law_home_spelled_out("~/.config/kimi/sessions"@, None);
}

/// In a configuration that is loaded, each key but the paths is what the environment
/// sets; else what the file sets; else the default: the host 127.0.0.1, the port
/// 3103, a hundred turns, twenty-four hours, the threshold one, and watching.
pub proof fn law_loaded_keys(
    file: Option<ConfigFile>,
    env: EnvOverrides,
    home: Option<Seq<u8>>,
    data: Option<Seq<u8>>,
    config: Config,
)
    requires
        loads(file, env, home, data, Ok(config)),
    ensures
        match (env.host, file) {
            (Some(text), _) => config.host@ == text@,
            (None, Some(f)) => config.host@ == match f.host {
                Some(text) => text@,
                None => "127.0.0.1"@,
            },
            (None, None) => config.host@ == "127.0.0.1"@,
        },
        match (env.port, file) {
            (Some(text), _) => read_number(text@, 65535) == Ok::<nat, NumberError>(
                config.port as nat,
            ),
            (None, Some(f)) => config.port == match f.port {
                Some(n) => n,
                None => 3103u16,
            },
            (None, None) => config.port == 3103,
        },
        match (env.max_turns, file) {
            (Some(text), _) => read_number(text@, usize::MAX as nat) == Ok::<nat, NumberError>(
                config.max_turns as nat,
            ),
            (None, Some(f)) => config.max_turns == match f.max_turns {
                Some(n) => n,
                None => 100usize,
            },
            (None, None) => config.max_turns == 100,
        },
        match (env.archive_age_hours, file) {
            (Some(text), _) => read_number(text@, u64::MAX as nat) == Ok::<nat, NumberError>(
                config.archive_age_hours as nat,
            ),
            (None, Some(f)) => config.archive_age_hours == match f.archive_age_hours {
                Some(n) => n,
                None => 24u64,
            },
            (None, None) => config.archive_age_hours == 24,
        },
        match (env.dedup_similarity_threshold, file) {
            (Some(bits), _) => bits matches Ok(b) && config.dedup_similarity_threshold == b,
            (None, Some(f)) => config.dedup_similarity_threshold
                == match f.dedup_similarity_threshold {
                Some(bits) => bits,
                None => 0x3FF0_0000_0000_0000u64,
            },
            (None, None) => config.dedup_similarity_threshold == 0x3FF0_0000_0000_0000,
        },
        match (env.watch_sessions, file) {
            (Some(text), _) => read_number(text@, 255) matches Ok(n) && config.watch_sessions == (n
                > 0),
            (None, Some(f)) => config.watch_sessions == match f.watch_sessions {
                Some(watch) => watch,
                None => true,
            },
            (None, None) => config.watch_sessions,
        },
{
    if let Some(text) = env.port {
        lemma_read_bounded(text@, u16::MAX as nat);
    }
    if let Some(text) = env.max_turns {
        lemma_read_bounded(text@, usize::MAX as nat);
    }
    if let Some(text) = env.archive_age_hours {
        lemma_read_bounded(text@, u64::MAX as nat);
    }
}

/// What is wrong with a variable that should hold a number up to `max`.
pub open spec fn wrong_number(variable: Option<String>, max: nat) -> Option<NumberError> {
    match variable {
        Some(text) => match read_number(text@, max) {
            Ok(_) => None,
            Err(e) => Some(e),
        },
        None => None,
    }
}

/// A configuration is refused exactly if a variable that should hold a number does
/// not. The variables are looked at in this order: the port, the turns, the age, the
/// threshold and whether to watch; the error is that of the first.
pub proof fn law_configuration_refused(
    file: Option<ConfigFile>,
    env: EnvOverrides,
    home: Option<Seq<u8>>,
    data: Option<Seq<u8>>,
    outcome: Result<Config, ConfigError>,
)
    requires
        loads(file, env, home, data, outcome),
    ensures
        if wrong_number(env.port, 65535) is Some {
            outcome == Err::<Config, ConfigError>(
                ConfigError::Number(wrong_number(env.port, 65535)->Some_0),
            )
        } else if wrong_number(env.max_turns, usize::MAX as nat) is Some {
            outcome == Err::<Config, ConfigError>(
                ConfigError::Number(wrong_number(env.max_turns, usize::MAX as nat)->Some_0),
            )
        } else if wrong_number(env.archive_age_hours, u64::MAX as nat) is Some {
            outcome == Err::<Config, ConfigError>(
                ConfigError::Number(wrong_number(env.archive_age_hours, u64::MAX as nat)->Some_0),
            )
        } else if env.dedup_similarity_threshold is Some
            && env.dedup_similarity_threshold->Some_0 is Err {
            outcome == Err::<Config, ConfigError>(
                ConfigError::Threshold(env.dedup_similarity_threshold->Some_0->Err_0),
            )
        } else if wrong_number(env.watch_sessions, 255) is Some {
            outcome == Err::<Config, ConfigError>(
                ConfigError::Number(wrong_number(env.watch_sessions, 255)->Some_0),
            )
        } else {
            outcome is Ok
        },
{
}

} // verus!
