use compactd::config::{
    expand_home_in, expand_home_path, expand_home_path_in, join_path, parse_number, ConfigError,
    ConfigFile, EnvOverrides, NumberError, DEFAULT_ARCHIVE_AGE_HOURS, DEFAULT_DEDUP_SIMILARITY_THRESHOLD,
    DEFAULT_HOST, DEFAULT_MAX_TURNS, DEFAULT_PORT, DEFAULT_SESSION_DIR,
};
use compactd::paths::shown_path;
use compactd::Config;

fn no_file() -> ConfigFile {
    ConfigFile {
        host: None,
        port: None,
        session_dir: None,
        database_path: None,
        max_turns: None,
        archive_age_hours: None,
        dedup_similarity_threshold: None,
        watch_sessions: None,
    }
}

fn no_env() -> EnvOverrides {
    EnvOverrides {
        host: None,
        port: None,
        session_dir: None,
        database_path: None,
        max_turns: None,
        archive_age_hours: None,
        dedup_similarity_threshold: None,
        watch_sessions: None,
    }
}

fn text(s: &str) -> Option<String> {
    Some(s.to_string())
}

fn bytes(s: &str) -> Vec<u8> {
    s.as_bytes().to_vec()
}

fn path(s: &str) -> Option<Vec<u8>> {
    Some(bytes(s))
}

fn read_file(toml_text: &str) -> ConfigFile {
    let table: toml::Table = toml_text.parse().unwrap();
    let string = |key: &str| table.get(key).and_then(|v| v.as_str()).map(|v| v.to_string());
    let number = |key: &str| table.get(key).and_then(|v| v.as_integer());
    ConfigFile {
        host: string("host"),
        port: number("port").map(|n| n as u16),
        session_dir: string("session_dir"),
        database_path: string("database_path"),
        max_turns: number("max_turns").map(|n| n as usize),
        archive_age_hours: number("archive_age_hours").map(|n| n as u64),
        dedup_similarity_threshold: table
            .get("dedup_similarity_threshold")
            .and_then(|v| v.as_float())
            .map(|x| x.to_bits()),
        watch_sessions: table.get("watch_sessions").and_then(|v| v.as_bool()),
    }
}

#[test]
fn default_config_is_sane() {
    let cfg = Config::default();
    assert_eq!(cfg.port, DEFAULT_PORT);
    assert_eq!(cfg.host, DEFAULT_HOST);
    assert!(cfg.max_turns > 0);
}

#[test]
fn load_from_toml_overrides_defaults() {
    let file = read_file(
        r#"
host = "0.0.0.0"
port = 9999
max_turns = 42
"#,
    );
    let cfg = Config::load(Some(file), no_env()).unwrap();
    assert_eq!(cfg.host, "0.0.0.0");
    assert_eq!(cfg.port, 9999);
    assert_eq!(cfg.max_turns, 42);
}

#[test]
fn cli_config_prints_default_path() {
    let path = String::from_utf8_lossy(&Config::default_path()).into_owned();
    assert!(path.contains("compactd") && path.contains("config.toml"));
}

#[test]
fn defaults_in_given_directories() {
    let cfg = Config::default_in(&path("/home/u"), &path("/home/u/.local/share/"));
    assert_eq!(
        cfg,
        Config {
            host: "127.0.0.1".to_string(),
            port: 3103,
            session_dir: bytes("/home/u/.config/kimi/sessions"),
            database_path: bytes("/home/u/.local/share/compactd/state.db"),
            max_turns: 100,
            archive_age_hours: 24,
            dedup_similarity_threshold: 1.0f64.to_bits(),
            watch_sessions: true,
        }
    );
    let nowhere = Config::default_in(&None, &None);
    assert_eq!(nowhere.session_dir, bytes("~/.config/kimi/sessions"));
    assert_eq!(nowhere.session_dir, bytes(DEFAULT_SESSION_DIR));
    assert_eq!(nowhere.database_path, bytes("compactd.db"));
    assert_eq!(nowhere.max_turns, DEFAULT_MAX_TURNS);
    assert_eq!(nowhere.archive_age_hours, DEFAULT_ARCHIVE_AGE_HOURS);
    assert_eq!(
        f64::from_bits(DEFAULT_DEDUP_SIMILARITY_THRESHOLD),
        1.0f64
    );
}

#[test]
fn default_paths_of_the_configuration_file() {
    assert_eq!(
        Config::default_path_in(&path("/home/u/.config")),
        bytes("/home/u/.config/compactd/config.toml")
    );
    assert_eq!(Config::default_path_in(&None), bytes("compactd.toml"));
}

#[test]
fn directories_of_the_user_are_looked_up() {
    let raw = |p: Option<std::path::PathBuf>| p.map(|p| p.into_os_string().into_encoded_bytes());
    let home = raw(dirs::home_dir());
    let data = raw(dirs::data_dir());
    let config = raw(dirs::config_dir());
    assert_eq!(Config::default(), Config::default_in(&home, &data));
    assert_eq!(Config::default_path(), Config::default_path_in(&config));
    assert_eq!(expand_home_path(&bytes("~/x/y")), expand_home_in("~/x/y", &home));
    if let Some(h) = dirs::home_dir() {
        assert_eq!(
            expand_home_path(&bytes("~/x/y")),
            h.join("x/y").into_os_string().into_encoded_bytes()
        );
    }
}

#[test]
fn homes_are_spelled_out() {
    let home = path("/home/u");
    let expand = |p: &str| expand_home_in(p, &home);
    assert_eq!(expand("~/a/b"), bytes("/home/u/a/b"));
    assert_eq!(expand("~/"), bytes("/home/u/"));
    assert_eq!(expand("~//etc"), bytes("/etc"));
    assert_eq!(expand("~"), bytes("~"));
    assert_eq!(expand("~user/a"), bytes("~user/a"));
    assert_eq!(expand("/a/~/b"), bytes("/a/~/b"));
    assert_eq!(expand_home_in("~/a", &None), bytes("~/a"));
    let once = expand("~/a");
    assert_eq!(expand_home_path_in(&once, &home), once);
}

#[test]
fn homes_need_not_be_text() {
    let odd = vec![b'/', 0xff];
    let home = Some(odd.clone());
    let mut below = odd.clone();
    below.extend_from_slice(b"/a");
    assert_eq!(expand_home_in("~/a", &home), below);
    assert_eq!(
        Config::default_path_in(&home),
        [odd.as_slice(), b"/compactd/config.toml"].concat()
    );
    let mut file = no_file();
    file.session_dir = text("~/a");
    let cfg = Config::load_in(Some(file), no_env(), &home, &None).unwrap();
    assert_eq!(cfg.session_dir, below);
    assert_eq!(expand_home_path_in(&odd, &None), bytes("/\u{fffd}"));
    assert_eq!(shown_path(&odd), "/\u{fffd}");
    assert_eq!(shown_path(&bytes("/\u{e9}")), "/\u{e9}");
}

#[test]
fn paths_are_joined_as_std_joins_them() {
    for base in ["", "/", "a", "a/", "/a/b"] {
        for below in ["", "x", "/x", "x/y"] {
            let expected = std::path::Path::new(base).join(below);
            assert_eq!(
                join_path(&bytes(base), &bytes(below)),
                expected.into_os_string().into_encoded_bytes()
            );
        }
    }
}

#[test]
fn environment_wins_over_file_and_file_over_defaults() {
    let mut file = no_file();
    file.host = text("file");
    file.port = Some(1);
    file.max_turns = Some(2);
    file.watch_sessions = Some(false);
    let mut env = no_env();
    env.host = text("env");
    env.max_turns = text("+30");
    env.session_dir = text("~/s");
    env.dedup_similarity_threshold = Some(Ok(0.5f64.to_bits()));
    let cfg = Config::load_in(Some(file), env, &path("/h"), &path("/d")).unwrap();
    assert_eq!(cfg.host, "env");
    assert_eq!(cfg.port, 1);
    assert_eq!(cfg.max_turns, 30);
    assert_eq!(cfg.session_dir, bytes("/h/s"));
    assert_eq!(cfg.database_path, bytes("/d/compactd/state.db"));
    assert_eq!(cfg.archive_age_hours, 24);
    assert_eq!(f64::from_bits(cfg.dedup_similarity_threshold), 0.5f64);
    assert!(!cfg.watch_sessions);
}

#[test]
fn loading_without_a_file_gives_the_defaults() {
    let home = path("/h");
    let data = path("/d");
    assert_eq!(
        Config::load_in(None, no_env(), &home, &data).unwrap(),
        Config::default_in(&home, &data)
    );
    assert_eq!(
        Config::load_in(Some(no_file()), no_env(), &home, &data).unwrap(),
        Config::default_in(&home, &data)
    );
}

#[test]
fn watching_is_a_number() {
    let watch = |value: &str| {
        let mut env = no_env();
        env.watch_sessions = text(value);
        Config::load_in(None, env, &None, &None).map(|c| c.watch_sessions)
    };
    assert_eq!(watch("0"), Ok(false));
    assert_eq!(watch("1"), Ok(true));
    assert_eq!(watch("255"), Ok(true));
    assert_eq!(watch("256"), Err(ConfigError::Number(NumberError::PosOverflow)));
    assert_eq!(watch("true"), Err(ConfigError::Number(NumberError::InvalidDigit)));
}

#[test]
fn first_bad_variable_gives_the_error() {
    let mut env = no_env();
    env.watch_sessions = text("");
    env.dedup_similarity_threshold = Some(Err("invalid float literal".to_string()));
    let load = |env: &EnvOverrides| Config::load(None, env.clone()).unwrap_err();
    assert_eq!(
        load(&env),
        ConfigError::Threshold("invalid float literal".to_string())
    );
    assert_eq!(load(&env).message(), "invalid float literal");
    env.archive_age_hours = text("18446744073709551616");
    assert_eq!(load(&env), ConfigError::Number(NumberError::PosOverflow));
    assert_eq!(load(&env).message(), "number too large to fit in target type");
    env.max_turns = text("");
    assert_eq!(load(&env), ConfigError::Number(NumberError::Empty));
    assert_eq!(load(&env).message(), "cannot parse integer from empty string");
    env.port = text("-1");
    assert_eq!(load(&env), ConfigError::Number(NumberError::InvalidDigit));
    assert_eq!(load(&env).message(), "invalid digit found in string");
}

fn expected_number(value: &str, parsed: Result<u64, std::num::ParseIntError>) {
    let max = u8::MAX as u64;
    match (parse_number(value, max), parsed) {
        (Ok(n), Ok(m)) => assert_eq!(n, m, "{value}"),
        (Err(e), Err(f)) => {
            assert_eq!(ConfigError::Number(e).message(), f.to_string(), "{value}")
        }
        (a, b) => panic!("{value}: {a:?} and {b:?}"),
    }
}

#[test]
fn numbers_are_read_as_std_reads_them() {
    for value in [
        "", "+", "-", "0", "+0", "-0", "++1", "+-1", "007", "255", "256", "300", "1000", "25x",
        "999x", "x999", " 1", "1 ", "1_0", "\u{664}", "+255", "+256", "00000000000255",
    ] {
        expected_number(value, value.parse::<u8>().map(|n| n as u64));
    }
    assert_eq!(parse_number("18446744073709551615", u64::MAX), Ok(u64::MAX));
    assert_eq!(
        parse_number("18446744073709551616", u64::MAX),
        Err(NumberError::PosOverflow)
    );
}
