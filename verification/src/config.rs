//! Server settings, computed from the values of the environment variables
//! `PORT`, `DATABASE_URL` and `LOG_LEVEL`.
use vstd::prelude::*;

use crate::text::{chars_of, eq_ignore_ascii_case, string_of, strip_suffixes, strip_suffixes_chars};

verus! {

/// The port the server listens on when `PORT` is unset or not a port number.
pub const DEFAULT_PORT: u16 = 7077;

/// How much the server logs, from nothing to everything.
#[derive(Debug, Clone, Copy, PartialEq, Eq, Structural)]
pub enum LogLevel {
    Off,
    Error,
    Warn,
    Info,
    Debug,
    Trace,
}

/// The name of a log level, in capitals.
pub open spec fn level_name(level: LogLevel) -> Seq<char> {
    match level {
        LogLevel::Off => seq!['O', 'F', 'F'],
        LogLevel::Error => seq!['E', 'R', 'R', 'O', 'R'],
        LogLevel::Warn => seq!['W', 'A', 'R', 'N'],
        LogLevel::Info => seq!['I', 'N', 'F', 'O'],
        LogLevel::Debug => seq!['D', 'E', 'B', 'U', 'G'],
        LogLevel::Trace => seq!['T', 'R', 'A', 'C', 'E'],
    }
}

/// The log level named `value`, in any ASCII case.
pub open spec fn level_named(value: Seq<char>) -> Option<LogLevel> {
    if eq_ignore_ascii_case(level_name(LogLevel::Off), value) {
        Some(LogLevel::Off)
    } else if eq_ignore_ascii_case(level_name(LogLevel::Error), value) {
        Some(LogLevel::Error)
    } else if eq_ignore_ascii_case(level_name(LogLevel::Warn), value) {
        Some(LogLevel::Warn)
    } else if eq_ignore_ascii_case(level_name(LogLevel::Info), value) {
        Some(LogLevel::Info)
    } else if eq_ignore_ascii_case(level_name(LogLevel::Debug), value) {
        Some(LogLevel::Debug)
    } else if eq_ignore_ascii_case(level_name(LogLevel::Trace), value) {
        Some(LogLevel::Trace)
    } else {
        None
    }
}

/// `log::LevelFilter`'s `FromStr`: its source compares `value` with the
/// names `OFF`, `ERROR`, `WARN`, `INFO`, `DEBUG` and `TRACE` by
/// `eq_ignore_ascii_case` and gives the level of the first that matches, or
/// an error where none does.
#[verifier::external_body]
fn parse_level_filter(value: &str) -> (r: Option<LogLevel>)
    ensures
        r == level_named(value@),
{
    match value.parse::<log::LevelFilter>() {
        Ok(log::LevelFilter::Off) => Some(LogLevel::Off),
        Ok(log::LevelFilter::Error) => Some(LogLevel::Error),
        Ok(log::LevelFilter::Warn) => Some(LogLevel::Warn),
        Ok(log::LevelFilter::Info) => Some(LogLevel::Info),
        Ok(log::LevelFilter::Debug) => Some(LogLevel::Debug),
        Ok(log::LevelFilter::Trace) => Some(LogLevel::Trace),
        Err(_) => None,
    }
}

/// Whether `c` is an ASCII decimal digit.
pub open spec fn is_digit(c: char) -> bool {
    '0' <= c && c <= '9'
}

/// The number that a string of decimal digits writes.
pub open spec fn digits_value(s: Seq<char>) -> int
    decreases s.len(),
{
    if s.len() == 0 {
        0
    } else {
        digits_value(s.drop_last()) * 10 + (s.last() as int - '0' as int)
    }
}

/// The digits of a number as `u16::from_str` reads it: after an optional `+`.
pub open spec fn unsigned_digits(s: Seq<char>) -> Seq<char> {
    if s.len() > 0 && s[0] == '+' {
        s.drop_first()
    } else {
        s
    }
}

/// What `u16::from_str` gives: the number, where `s` is an optional `+`
/// followed by at least one decimal digit and nothing else, and the number
/// fits in 16 bits; else nothing.
pub open spec fn decimal_u16(s: Seq<char>) -> Option<u16> {
    let d = unsigned_digits(s);
    if d.len() > 0 && (forall|k: int| 0 <= k < d.len() ==> is_digit(#[trigger] d[k])) && digits_value(d)
        <= u16::MAX {
        Some(digits_value(d) as u16)
    } else {
        None
    }
}

proof fn lemma_digits_value_prefix(s: Seq<char>, j: int)
    requires
        0 <= j <= s.len(),
        forall|k: int| 0 <= k < s.len() ==> is_digit(#[trigger] s[k]),
    ensures
        0 <= digits_value(s.take(j)) <= digits_value(s),
    decreases s.len(),
{
    if s.len() > 0 {
        if j == s.len() {
            assert(s.take(j) =~= s);
            lemma_digits_value_prefix(s.drop_last(), j - 1);
            assert(s.drop_last().take(j - 1) =~= s.drop_last().take(j - 1));
        } else {
            lemma_digits_value_prefix(s.drop_last(), j);
            assert(s.drop_last().take(j) =~= s.take(j));
            lemma_digits_value_prefix(s.drop_last(), s.len() - 1);
            assert(s.drop_last().take(s.len() - 1) =~= s.drop_last());
        }
    }
}

/// The port number `value` writes, as `u16::from_str` reads it.
pub fn parse_u16(value: &str) -> (r: Option<u16>)
    ensures
        r == decimal_u16(value@),
{
    let s = chars_of(value);
    let start: usize = if s.len() > 0 && s[0] == '+' {
        1
    } else {
        0
    };
    let ghost d = unsigned_digits(s@);
    proof {
        assert(d =~= s@.skip(start as int));
    }
    if start >= s.len() {
        return None;
    }
    let mut acc: u32 = 0;
    let mut i: usize = start;
    proof {
        assert(d.take(0) =~= Seq::<char>::empty());
    }
    while i < s.len()
        invariant
            start <= i <= s.len(),
            start < s.len(),
            s@ == value@,
            d == unsigned_digits(value@),
            d == s@.skip(start as int),
            acc <= 65535,
            forall|k: int| 0 <= k < i - start ==> is_digit(#[trigger] d[k]),
            acc == digits_value(d.take(i - start)),
        decreases s.len() - i,
    {
        let c = s[i];
        if c < '0' || c > '9' {
            proof {
                assert(d[i - start] == c);
                assert(!is_digit(d[i - start]));
            }
            return None;
        }
        let digit: u32 = (c as u32) - ('0' as u32);
        proof {
            assert(d[i - start] == c);
            assert(d.take(i - start + 1).drop_last() =~= d.take(i - start));
            assert(d.take(i - start + 1).last() == c);
        }
        if acc * 10 + digit > 65535 {
            proof {
                if forall|k: int| 0 <= k < d.len() ==> is_digit(#[trigger] d[k]) {
                    lemma_digits_value_prefix(d, i - start + 1);
                }
            }
            return None;
        }
        acc = acc * 10 + digit;
        i = i + 1;
    }
    proof {
        assert(d.take(i - start) =~= d);
    }
    Some(acc as u16)
}

/// The server's settings.
#[derive(Debug)]
pub struct Config {
    pub port: u16,
    /// The Postgres cache; without one, every request scrapes KronoX.
    pub database_url: Option<String>,
    pub log_level: LogLevel,
}

/// The port that the `PORT` value gives.
pub open spec fn port_of(port: Option<Seq<char>>) -> u16 {
    match port {
        Some(p) => match decimal_u16(p) {
            Some(n) => n,
            None => DEFAULT_PORT,
        },
        None => DEFAULT_PORT,
    }
}

/// The log level that the `LOG_LEVEL` value gives.
pub open spec fn log_level_of(level: Option<Seq<char>>) -> LogLevel {
    match level {
        Some(v) => match level_named(v) {
            Some(l) => l,
            None => LogLevel::Debug,
        },
        None => LogLevel::Debug,
    }
}

impl Config {
    /// The settings that the values of `PORT`, `DATABASE_URL` and `LOG_LEVEL`
    /// give: a port that is not a number falls back to the default, the
    /// database URL loses its trailing slashes, and an unknown log level falls
    /// back to `Debug`.
    pub fn from_values(port: Option<&str>, database_url: Option<&str>, log_level: Option<&str>) -> (r:
        Config)
        ensures
            r.port == port_of(
                match port {
                    Some(p) => Some(p@),
                    None => None,
                },
            ),
            r.log_level == log_level_of(
                match log_level {
                    Some(v) => Some(v@),
                    None => None,
                },
            ),
            match database_url {
                Some(u) => r.database_url is Some && r.database_url->0@ == strip_suffixes(
                    u@,
                    seq!['/'],
                ),
                None => r.database_url is None,
            },
    {
        let port = match port {
            Some(p) => match parse_u16(p) {
                Some(n) => n,
                None => DEFAULT_PORT,
            },
            None => DEFAULT_PORT,
        };
        let database_url = match database_url {
            Some(u) => {
                let slash: Vec<char> = vec!['/'];
                proof {
                    assert(slash@ =~= seq!['/']);
                }
                let trimmed = strip_suffixes_chars(&chars_of(u), &slash);
                Some(string_of(&trimmed))
            },
            None => None,
        };
        let log_level = match log_level {
            Some(v) => match parse_level_filter(v) {
                Some(l) => l,
                None => LogLevel::Debug,
            },
            None => LogLevel::Debug,
        };
        Config { port, database_url, log_level }
    }
}

} // verus!
