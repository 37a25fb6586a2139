//! Runtime configuration: the listening port, the payload size bound and
//! the log level, together with the textual formats their settings accept.

use vstd::prelude::*;
use vstd::string::StrSliceExecFns;
use vstd::string::StringExecFns;

verus! {

/// Default TCP port.
pub const DEFAULT_PORT: u16 = 1337;

/// Default upper bound, in bytes, on a message body (64 KiB).
pub const DEFAULT_MAX_MESSAGE_SIZE: usize = 65536;

/// Runtime configuration, resolved once at startup.
#[derive(Debug, Clone)]
pub struct Config {
    /// TCP port the front end listens on.
    pub port: u16,
    /// Upper bound, in bytes, on a message body.
    pub max_message_size: usize,
    /// Log level setting, kept as the text it was given in.
    pub log_level: String,
}

/// Verbosity levels of the process log.
#[derive(Clone, Copy, Debug, PartialEq, Eq, Structural)]
pub enum LogLevel {
    Trace,
    Debug,
    Info,
    Warn,
    Error,
}

/// Whether `c` is a decimal digit.
pub open spec fn is_digit(c: char) -> bool {
    '0' as u32 <= c as u32 && c as u32 <= '9' as u32
}

/// Whether `s` consists of decimal digits only.
pub open spec fn all_digits(s: Seq<char>) -> bool {
    forall|i: int| 0 <= i < s.len() ==> is_digit(#[trigger] s[i])
}

/// Numeric value of a digit.
pub open spec fn digit_val(c: char) -> int {
    c as u32 - '0' as u32
}

/// Value of a digit string read in base ten.
pub open spec fn digits_value(s: Seq<char>) -> int
    decreases s.len(),
{
    if s.len() == 0 {
        0
    } else {
        digits_value(s.drop_last()) * 10 + digit_val(s.last())
    }
}

/// What parsing `s` as an unsigned decimal number yields: defined for a
/// non-empty string of digits whose value fits the platform word.
pub open spec fn spec_parse_usize(s: Seq<char>) -> Option<usize> {
    if s.len() > 0 && all_digits(s) && digits_value(s) <= usize::MAX {
        Some(digits_value(s) as usize)
    } else {
        None
    }
}

/// What parsing `s` as a port number yields.
pub open spec fn spec_parse_port(s: Seq<char>) -> Option<u16> {
    if s.len() > 0 && all_digits(s) && digits_value(s) <= u16::MAX {
        Some(digits_value(s) as u16)
    } else {
        None
    }
}

/// What parsing `s` as a size setting yields: raw bytes (`"1024"`), or
/// kilobytes with a `K`/`k` suffix (`"64K"`); zero and anything
/// unparseable are rejected.
pub open spec fn spec_parse_size(s: Seq<char>) -> Option<usize> {
    if s.len() == 0 {
        None
    } else if s.last() == 'K' || s.last() == 'k' {
        let d = s.drop_last();
        if d.len() > 0 && all_digits(d) && 0 < digits_value(d) && digits_value(d) * 1024
            <= usize::MAX {
            Some((digits_value(d) * 1024) as usize)
        } else {
            None
        }
    } else {
        if all_digits(s) && 0 < digits_value(s) && digits_value(s) <= usize::MAX {
            Some(digits_value(s) as usize)
        } else {
            None
        }
    }
}

/// Whether `x` is `y` itself or its ASCII uppercase form.
pub open spec fn char_ci(x: char, y: char) -> bool {
    x == y || ('A' as u32 <= x as u32 && x as u32 <= 'Z' as u32 && x as u32 + 32 == y as u32)
}

/// Whether `a` equals the (lowercase) word `b` up to ASCII case.
pub open spec fn ci_eq(a: Seq<char>, b: Seq<char>) -> bool {
    a.len() == b.len() && forall|i: int| 0 <= i < a.len() ==> char_ci(#[trigger] a[i], b[i])
}

/// The log level a setting denotes, compared case-insensitively; anything
/// unrecognised means `Info`.
pub open spec fn spec_level_of(s: Seq<char>) -> LogLevel {
    if ci_eq(s, "trace"@) {
        LogLevel::Trace
    } else if ci_eq(s, "debug"@) {
        LogLevel::Debug
    } else if ci_eq(s, "info"@) {
        LogLevel::Info
    } else if ci_eq(s, "warn"@) || ci_eq(s, "warning"@) {
        LogLevel::Warn
    } else if ci_eq(s, "error"@) {
        LogLevel::Error
    } else {
        LogLevel::Info
    }
}

/// A digit string's value only grows as digits are appended.
proof fn lemma_digits_prefix_bound(s: Seq<char>, i: int)
    requires
        all_digits(s),
        0 <= i <= s.len(),
    ensures
        0 <= digits_value(s.take(i)),
        digits_value(s.take(i)) <= digits_value(s),
    decreases s.len(),
{
    if s.len() == 0 {
        assert(s.take(i) =~= s);
    } else if i == s.len() {
        assert(s.take(i) =~= s);
        lemma_digits_prefix_bound(s.drop_last(), s.len() - 1);
        assert(s.drop_last().take(s.len() - 1) =~= s.drop_last());
    } else {
        assert(s.drop_last().take(i) =~= s.take(i));
        lemma_digits_prefix_bound(s.drop_last(), i);
        assert(digits_value(s) == digits_value(s.drop_last()) * 10 + digit_val(s.last()));
    }
}

/// Parses a non-empty, all-digit string; rejects anything else, and any
/// value beyond the platform word.
#[verifier::loop_isolation(false)]
fn parse_decimal(s: &str) -> (r: Option<usize>)
    ensures
        r == spec_parse_usize(s@),
{
    let n = s.unicode_len();
    if n == 0 {
        return None;
    }
    let mut acc: usize = 0;
    let mut i: usize = 0;
    while i < n
        invariant
            i <= n,
            all_digits(s@.take(i as int)),
            acc == digits_value(s@.take(i as int)),
        decreases n - i,
    {
        let c = s.get_char(i);
        let code = c as u32;
        if code < 48 || code > 57 {
            proof {
                assert(!is_digit(s@[i as int]));
            }
            return None;
        }
        let d = (code - 48) as usize;
        proof {
            assert(s@.take(i + 1).drop_last() =~= s@.take(i as int));
            assert(s@.take(i + 1).last() == s@[i as int]);
            assert(digits_value(s@.take(i + 1)) == acc * 10 + d);
        }
        let next = match acc.checked_mul(10) {
            Some(t) => t.checked_add(d),
            None => None,
        };
        match next {
            Some(v) => {
                acc = v;
            },
            None => {
                proof {
                    if all_digits(s@) {
                        lemma_digits_prefix_bound(s@, i + 1);
                        assert(digits_value(s@) > usize::MAX);
                    }
                }
                return None;
            },
        }
        i += 1;
    }
    proof {
        assert(s@.take(n as int) =~= s@);
    }
    Some(acc)
}

/// Parses a port number: a non-negative decimal within `u16` range.
fn parse_port(s: &str) -> (r: Option<u16>)
    ensures
        r == spec_parse_port(s@),
{
    match parse_decimal(s) {
        Some(v) => {
            proof {
                lemma_digits_prefix_bound(s@, s@.len() as int);
                assert(s@.take(s@.len() as int) =~= s@);
            }
            if v <= 65535 {
                Some(v as u16)
            } else {
                None
            }
        },
        None => {
            proof {
                if s@.len() > 0 && all_digits(s@) {
                    assert(digits_value(s@) > usize::MAX >= u16::MAX);
                }
            }
            None
        },
    }
}

/// Compares `s` with the lowercase word `t`, ignoring ASCII case in `s`.
#[verifier::loop_isolation(false)]
fn eq_ci(s: &str, t: &str) -> (b: bool)
    ensures
        b == ci_eq(s@, t@),
{
    let n = s.unicode_len();
    if n != t.unicode_len() {
        return false;
    }
    let mut i: usize = 0;
    while i < n
        invariant
            i <= n,
            forall|j: int| 0 <= j < i ==> char_ci(#[trigger] s@[j], t@[j]),
        decreases n - i,
    {
        let x = s.get_char(i);
        let y = t.get_char(i);
        let xc = x as u32;
        let yc = y as u32;
        let upper = xc >= 'A' as u32 && xc <= 'Z' as u32 && xc as u64 + 32 == yc as u64;
        if !(x == y || upper) {
            proof {
                assert(!char_ci(s@[i as int], t@[i as int]));
            }
            return false;
        }
        i += 1;
    }
    true
}

impl Default for Config {
    /// The built-in configuration: port 1337, 64 KiB bodies, `info` logs.
    fn default() -> (c: Config)
        ensures
            c.port == DEFAULT_PORT,
            c.max_message_size == DEFAULT_MAX_MESSAGE_SIZE,
            c.log_level@ == "info"@,
    {
        Config {
            port: DEFAULT_PORT,
            max_message_size: DEFAULT_MAX_MESSAGE_SIZE,
            log_level: String::from_str("info"),
        }
    }
}

impl Config {
    /// Parses a size setting: raw bytes, or kilobytes with a `K`/`k`
    /// suffix. Zero, overflow and anything unparseable yield `None`.
    pub fn parse_size(value: &str) -> (r: Option<usize>)
        ensures
            r == spec_parse_size(value@),
    {
        let n = value.unicode_len();
        if n == 0 {
            return None;
        }
        let last = value.get_char(n - 1);
        if last == 'K' || last == 'k' {
            let prefix = value.substring_char(0, n - 1);
            proof {
                assert(prefix@ =~= value@.drop_last());
            }
            match parse_decimal(prefix) {
                Some(kb) => {
                    proof {
                        lemma_digits_prefix_bound(prefix@, prefix@.len() as int);
                        assert(prefix@.take(prefix@.len() as int) =~= prefix@);
                    }
                    if kb > 0 {
                        let r = kb.checked_mul(1024);
                        proof {
                            if value@.drop_last().len() > 0 && all_digits(value@.drop_last())
                                && digits_value(value@.drop_last()) > usize::MAX {
                                assert(digits_value(value@.drop_last()) * 1024 > usize::MAX);
                            }
                        }
                        r
                    } else {
                        None
                    }
                },
                None => {
                    proof {
                        if value@.drop_last().len() > 0 && all_digits(value@.drop_last()) {
                            assert(digits_value(value@.drop_last()) > usize::MAX);
                            assert(digits_value(value@.drop_last()) * 1024 > usize::MAX);
                        }
                    }
                    None
                },
            }
        } else {
            match parse_decimal(value) {
                Some(v) => {
                    proof {
                        lemma_digits_prefix_bound(value@, value@.len() as int);
                        assert(value@.take(value@.len() as int) =~= value@);
                    }
                    if v > 0 {
                        Some(v)
                    } else {
                        None
                    }
                },
                None => None,
            }
        }
    }

    /// The log level this configuration selects, compared
    /// case-insensitively; unknown settings select `Info`.
    pub fn tracing_level(&self) -> (level: LogLevel)
        ensures
            level == spec_level_of(self.log_level@),
    {
        let s = self.log_level.as_str();
        if eq_ci(s, "trace") {
            LogLevel::Trace
        } else if eq_ci(s, "debug") {
            LogLevel::Debug
        } else if eq_ci(s, "info") {
            LogLevel::Info
        } else if eq_ci(s, "warn") {
            LogLevel::Warn
        } else if eq_ci(s, "warning") {
            LogLevel::Warn
        } else if eq_ci(s, "error") {
            LogLevel::Error
        } else {
            LogLevel::Info
        }
    }

    /// Resolves a configuration from the raw setting texts, normally the
    /// values of the `TLQ_PORT`, `TLQ_MAX_MESSAGE_SIZE` and
    /// `TLQ_LOG_LEVEL` environment variables. A missing or unparseable
    /// setting falls back to its default; the log level text is kept as
    /// given, even when unrecognised.
    pub fn from_parts(
        port: Option<String>,
        size: Option<String>,
        level: Option<String>,
    ) -> (c: Config)
        ensures
            c.port == (match port {
                Some(p) => match spec_parse_port(p@) {
                    Some(v) => v,
                    None => DEFAULT_PORT,
                },
                None => DEFAULT_PORT,
            }),
            c.max_message_size == (match size {
                Some(s) => match spec_parse_size(s@) {
                    Some(v) => v,
                    None => DEFAULT_MAX_MESSAGE_SIZE,
                },
                None => DEFAULT_MAX_MESSAGE_SIZE,
            }),
            c.log_level@ == (match level {
                Some(l) => l@,
                None => "info"@,
            }),
    {
        let mut config = Config::default();
        match port {
            Some(p) => {
                match parse_port(p.as_str()) {
                    Some(v) => {
                        config.port = v;
                    },
                    None => {},
                }
            },
            None => {},
        }
        match size {
            Some(s) => {
                match Config::parse_size(s.as_str()) {
                    Some(v) => {
                        config.max_message_size = v;
                    },
                    None => {},
                }
            },
            None => {},
        }
        match level {
            Some(l) => {
                config.log_level = l;
            },
            None => {},
        }
        config
    }
}

} // verus!
