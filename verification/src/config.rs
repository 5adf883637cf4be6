//! Reading the run's settings out of raw text: environment values are
//! trimmed of whitespace and quoting, numbers are parsed in decimal or
//! hexadecimal, and the runtime configuration is validated from a
//! snapshot of the variables the process was given.

use vstd::prelude::*;
use crate::u256::{U256, DecParseError, all_dec_digits, spec_dec_value, u256_max};
use crate::text::{
    str_chars, push_chars, trim_spaces, trim_char, spec_trim, spec_trim_char, spec_hex_digit,
    is_hex_digit, hex_digit_value,
};

verus! {

/// Why a configuration value was rejected.
#[derive(Clone, Copy, PartialEq, Eq, Structural, Debug)]
pub enum ConfigError {
    /// A required variable is absent.
    MissingVar,
    /// A required variable is empty once cleaned.
    EmptyVar,
    /// A numeric setting does not parse or does not fit.
    BadNumber,
}

/// An environment value once its whitespace and quoting are stripped.
pub open spec fn spec_clean_env(s: Seq<char>) -> Seq<char> {
    spec_trim_char(spec_trim_char(spec_trim(s), '"'), '\'')
}

/// Strip whitespace, then double quotes, then single quotes, from both
/// ends.
pub fn clean_env_value(raw: &str) -> (r: String)
    ensures
        r@ == spec_clean_env(raw@),
{
    let chars = str_chars(raw);
    let trimmed = trim_spaces(&chars);
    let unquoted = trim_char(&trimmed, '"');
    let bare = trim_char(&unquoted, '\'');
    let mut out = String::new();
    push_chars(&mut out, &bare);
    out
}

/// A required setting: present and nonempty once cleaned.
pub fn env_required(value: Option<&String>) -> (r: Result<String, ConfigError>)
    ensures
        match r {
            Ok(v) => value matches Some(raw) && v@ == spec_clean_env(raw@) && v@.len() > 0,
            Err(e) => (e is MissingVar && value is None) || (e is EmptyVar && (value
                matches Some(raw) && spec_clean_env(raw@).len() == 0)),
        },
{
    match value {
        None => Err(ConfigError::MissingVar),
        Some(raw) => {
            let cleaned = clean_env_value(raw.as_str());
            if cleaned.as_str().unicode_len() == 0 {
                Err(ConfigError::EmptyVar)
            } else {
                Ok(cleaned)
            }
        },
    }
}

/// An optional setting with a fallback: the cleaned value when present
/// and nonempty, the default otherwise.
pub fn env_or_default(value: Option<&String>, default: &str) -> (r: String)
    ensures
        r@ == (match value {
            Some(raw) => if spec_clean_env(raw@).len() > 0 {
                spec_clean_env(raw@)
            } else {
                default@
            },
            None => default@,
        }),
{
    match value {
        None => {
            let mut out = String::new();
            out.append(default);
            out
        },
        Some(raw) => {
            let cleaned = clean_env_value(raw.as_str());
            if cleaned.as_str().unicode_len() == 0 {
                let mut out = String::new();
                out.append(default);
                out
            } else {
                cleaned
            }
        },
    }
}

/// Whether a cleaned numeric string parses as a `u64`: an optional plus
/// sign, then decimal digits whose value fits.
pub open spec fn spec_u64_digits(s: Seq<char>) -> Seq<char> {
    if s.len() > 0 && s[0] == '+' {
        s.drop_first()
    } else {
        s
    }
}

pub open spec fn spec_parses_u64(s: Seq<char>) -> bool {
    let d = spec_u64_digits(s);
    d.len() > 0 && all_dec_digits(d) && spec_dec_value(d) <= u64::MAX
}

pub open spec fn spec_u64_value(s: Seq<char>) -> nat {
    spec_dec_value(spec_u64_digits(s))
}

/// Parse a decimal `u64`, accepting one leading plus sign.
pub fn parse_u64_dec(s: &str) -> (r: Option<u64>)
    ensures
        match r {
            Some(v) => spec_parses_u64(s@) && v == spec_u64_value(s@),
            None => !spec_parses_u64(s@),
        },
{
    let chars = str_chars(s);
    let mut digits = String::new();
    if chars.len() > 0 && chars[0] == '+' {
        let mut rest: Vec<char> = Vec::new();
        let mut i: usize = 1;
        while i < chars.len()
            invariant
                1 <= i <= chars@.len(),
                chars@ == s@,
                rest@ == s@.subrange(1, i as int),
            decreases chars@.len() - i,
        {
            rest.push(chars[i]);
            proof {
                assert(s@.subrange(1, i + 1) =~= s@.subrange(1, i as int).push(s@[i as int]));
            }
            i = i + 1;
        }
        proof {
            assert(rest@ =~= s@.drop_first());
        }
        push_chars(&mut digits, &rest);
    } else {
        let mut all: Vec<char> = Vec::new();
        let mut i: usize = 0;
        while i < chars.len()
            invariant
                i <= chars@.len(),
                chars@ == s@,
                all@ == s@.take(i as int),
            decreases chars@.len() - i,
        {
            all.push(chars[i]);
            proof {
                assert(s@.take(i + 1) =~= s@.take(i as int).push(s@[i as int]));
            }
            i = i + 1;
        }
        proof {
            assert(all@ =~= s@);
        }
        push_chars(&mut digits, &all);
    }
    proof {
        assert(digits@ == spec_u64_digits(s@));
    }
    match U256::from_dec_str(digits.as_str()) {
        Err(_) => None,
        Ok(v) => {
            let max64 = U256::from_u64(u64::MAX);
            if max64.lt(&v) {
                None
            } else {
                proof {
                    assert(v.hi == 0 && v.lo <= u64::MAX) by {
                        crate::u256::U256::lemma_in_range(v);
                        if v.hi >= 1 {
                            assert(v.lo + v.hi * crate::u256::pow128() >= crate::u256::pow128())
                                by (nonlinear_arith)
                                requires
                                    v.hi >= 1,
                                    v.lo >= 0,
                            ;
                        }
                    }
                }
                Some(v.lo as u64)
            }
        },
    }
}

/// An optional numeric setting with a fallback, as the polling loop reads
/// it: anything absent, empty or unparseable falls back to the default.
pub fn env_u64_or_default(value: Option<&String>, default: u64) -> (r: u64)
    ensures
        ({
            match value {
                Some(raw) => if spec_clean_env(raw@).len() > 0 && spec_parses_u64(
                    spec_clean_env(raw@),
                ) {
                    r == spec_u64_value(spec_clean_env(raw@))
                } else {
                    r == default
                },
                None => r == default,
            }
        }),
{
    match value {
        None => default,
        Some(raw) => {
            let cleaned = clean_env_value(raw.as_str());
            if cleaned.as_str().unicode_len() == 0 {
                default
            } else {
                match parse_u64_dec(cleaned.as_str()) {
                    Some(v) => v,
                    None => default,
                }
            }
        },
    }
}

/// A strict numeric setting, as the startup configuration reads it:
/// absent or empty falls back to the default, but a present value that
/// does not parse is an error.
pub fn env_parse_u64_or_default(value: Option<&String>, default: u64) -> (r: Result<
    u64,
    ConfigError,
>)
    ensures
        match r {
            Ok(v) => (match value {
                Some(raw) => if spec_clean_env(raw@).len() > 0 {
                    spec_parses_u64(spec_clean_env(raw@)) && v == spec_u64_value(
                        spec_clean_env(raw@),
                    )
                } else {
                    v == default
                },
                None => v == default,
            }),
            Err(e) => e is BadNumber && (value matches Some(raw) && spec_clean_env(raw@).len()
                > 0 && !spec_parses_u64(spec_clean_env(raw@))),
        },
{
    match value {
        None => Ok(default),
        Some(raw) => {
            let cleaned = clean_env_value(raw.as_str());
            if cleaned.as_str().unicode_len() == 0 {
                Ok(default)
            } else {
                match parse_u64_dec(cleaned.as_str()) {
                    Some(v) => Ok(v),
                    None => Err(ConfigError::BadNumber),
                }
            }
        },
    }
}

/// The lowercase form of an ASCII letter, other characters unchanged.
pub open spec fn spec_ascii_lower(c: char) -> char {
    if c == 'A' {
        'a'
    } else if c == 'B' {
        'b'
    } else if c == 'C' {
        'c'
    } else if c == 'D' {
        'd'
    } else if c == 'E' {
        'e'
    } else if c == 'F' {
        'f'
    } else if c == 'G' {
        'g'
    } else if c == 'H' {
        'h'
    } else if c == 'I' {
        'i'
    } else if c == 'J' {
        'j'
    } else if c == 'K' {
        'k'
    } else if c == 'L' {
        'l'
    } else if c == 'M' {
        'm'
    } else if c == 'N' {
        'n'
    } else if c == 'O' {
        'o'
    } else if c == 'P' {
        'p'
    } else if c == 'Q' {
        'q'
    } else if c == 'R' {
        'r'
    } else if c == 'S' {
        's'
    } else if c == 'T' {
        't'
    } else if c == 'U' {
        'u'
    } else if c == 'V' {
        'v'
    } else if c == 'W' {
        'w'
    } else if c == 'X' {
        'x'
    } else if c == 'Y' {
        'y'
    } else if c == 'Z' {
        'z'
    } else {
        c
    }
}

fn ascii_lower(c: char) -> (r: char)
    ensures
        r == spec_ascii_lower(c),
{
    match c {
        'A' => 'a',
        'B' => 'b',
        'C' => 'c',
        'D' => 'd',
        'E' => 'e',
        'F' => 'f',
        'G' => 'g',
        'H' => 'h',
        'I' => 'i',
        'J' => 'j',
        'K' => 'k',
        'L' => 'l',
        'M' => 'm',
        'N' => 'n',
        'O' => 'o',
        'P' => 'p',
        'Q' => 'q',
        'R' => 'r',
        'S' => 's',
        'T' => 't',
        'U' => 'u',
        'V' => 'v',
        'W' => 'w',
        'X' => 'x',
        'Y' => 'y',
        'Z' => 'z',
        _ => c,
    }
}

/// What a truthiness token means, if anything.
pub open spec fn spec_bool_token(s: Seq<char>) -> Option<bool> {
    if s == "1"@ || s == "true"@ || s == "yes"@ || s == "on"@ {
        Some(true)
    } else if s == "0"@ || s == "false"@ || s == "no"@ || s == "off"@ {
        Some(false)
    } else {
        None
    }
}

pub open spec fn spec_lowered(s: Seq<char>) -> Seq<char> {
    s.map_values(|c: char| spec_ascii_lower(c))
}

/// A boolean setting: the cleaned value is lowercased and matched against
/// the truthy and falsy tokens; anything else is the default.
pub fn env_bool_or_default(value: Option<&String>, default: bool) -> (r: bool)
    ensures
        r == (match value {
            Some(raw) => match spec_bool_token(spec_lowered(spec_clean_env(raw@))) {
                Some(b) => b,
                None => default,
            },
            None => default,
        }),
{
    match value {
        None => default,
        Some(raw) => {
            let cleaned = clean_env_value(raw.as_str());
            let chars = str_chars(cleaned.as_str());
            let mut lowered: Vec<char> = Vec::new();
            let mut i: usize = 0;
            while i < chars.len()
                invariant
                    i <= chars@.len(),
                    chars@ == spec_clean_env(raw@),
                    lowered@ == spec_lowered(chars@).take(i as int),
                decreases chars@.len() - i,
            {
                lowered.push(ascii_lower(chars[i]));
                proof {
                    assert(spec_lowered(chars@).take(i + 1) =~= spec_lowered(chars@).take(
                        i as int,
                    ).push(spec_ascii_lower(chars@[i as int])));
                }
                i = i + 1;
            }
            proof {
                assert(lowered@ =~= spec_lowered(chars@));
            }
            let mut low = String::new();
            push_chars(&mut low, &lowered);
            let s = low.as_str();
            if crate::text::str_eq(s, "1") || crate::text::str_eq(s, "true")
                || crate::text::str_eq(s, "yes") || crate::text::str_eq(s, "on") {
                true
            } else if crate::text::str_eq(s, "0") || crate::text::str_eq(s, "false")
                || crate::text::str_eq(s, "no") || crate::text::str_eq(s, "off") {
                false
            } else {
                default
            }
        },
    }
}

/// Parse a decimal 256-bit amount, trimming surrounding whitespace first.
pub fn parse_u256_dec(value: &str) -> (r: Result<U256, DecParseError>)
    ensures
        match r {
            Ok(v) => ({
                let t = spec_trim(value@);
                t.len() > 0 && all_dec_digits(t) && spec_dec_value(t) <= u256_max() && v@
                    == spec_dec_value(t)
            }),
            Err(_) => ({
                let t = spec_trim(value@);
                !(t.len() > 0 && all_dec_digits(t) && spec_dec_value(t) <= u256_max())
            }),
        },
{
    let chars = str_chars(value);
    let trimmed = trim_spaces(&chars);
    let mut s = String::new();
    push_chars(&mut s, &trimmed);
    U256::from_dec_str(s.as_str())
}

/// One configured amount parsed into its value: trimmed, all digits,
/// in range.
pub open spec fn spec_u256_entry_ok(raw: Seq<char>, v: U256) -> bool {
    let t = spec_trim(raw);
    t.len() > 0 && all_dec_digits(t) && spec_dec_value(t) <= u256_max() && v@
        == spec_dec_value(t)
}

/// Parse a whole list of decimal amounts, preserving order; the first
/// bad entry fails the list.
pub fn parse_u256_list(values: &Vec<String>) -> (r: Result<Vec<U256>, DecParseError>)
    ensures
        match r {
            Ok(v) => v@.len() == values@.len() && (forall|i: int|
                0 <= i < v@.len() ==> #[trigger] spec_u256_entry_ok(values@[i]@, v@[i])),
            Err(_) => exists|i: int|
                0 <= i < values@.len() && ({
                    let t = spec_trim(#[trigger] values@[i]@);
                    !(t.len() > 0 && all_dec_digits(t) && spec_dec_value(t) <= u256_max())
                }),
        },
{
    let mut out: Vec<U256> = Vec::new();
    let mut i: usize = 0;
    while i < values.len()
        invariant
            i <= values@.len(),
            out@.len() == i,
            forall|j: int| 0 <= j < i ==> #[trigger] spec_u256_entry_ok(values@[j]@, out@[j]),
        decreases values@.len() - i,
    {
        let ghost out0 = out@;
        let entry = &values[i];
        proof {
            assert(entry@ == values@[i as int]@);
        }
        match parse_u256_dec(entry.as_str()) {
            Ok(v) => {
                out.push(v);
                proof {
                    assert forall|j: int| 0 <= j < i + 1 implies #[trigger] spec_u256_entry_ok(
                        values@[j]@,
                        out@[j],
                    ) by {
                        if j < i {
                            assert(out@[j] == out0[j]);
                            assert(spec_u256_entry_ok(values@[j]@, out0[j]));
                        } else {
                            assert(out@[j] == v);
                            assert(spec_u256_entry_ok(values@[j]@, v));
                        }
                    }
                }
            },
            Err(e) => {
                return Err(e);
            },
        }
        i = i + 1;
    }
    Ok(out)
}

/// Why a hexadecimal quantity was rejected.
#[derive(Clone, Copy, PartialEq, Eq, Structural, Debug)]
pub enum HexParseError {
    Empty,
    InvalidDigit,
    Overflow,
}

/// Every leading `0x` pair stripped, repeatedly.
pub open spec fn spec_strip_0x(s: Seq<char>) -> Seq<char>
    decreases s.len(),
{
    if s.len() >= 2 && s[0] == '0' && s[1] == 'x' {
        spec_strip_0x(s.skip(2))
    } else {
        s
    }
}

pub open spec fn all_hex_digits(s: Seq<char>) -> bool {
    forall|i: int| 0 <= i < s.len() ==> is_hex_digit(#[trigger] s[i])
}

pub open spec fn spec_hex_value(s: Seq<char>) -> nat
    decreases s.len(),
{
    if s.len() == 0 {
        0
    } else {
        spec_hex_value(s.drop_last()) * 16 + spec_hex_digit(s.last())
    }
}

/// The digits of a hex quantity after any sign.
pub open spec fn spec_hex_digits_part(s: Seq<char>) -> Seq<char> {
    if s.len() > 0 && (s[0] == '+' || s[0] == '-') {
        s.drop_first()
    } else {
        s
    }
}

/// Whether a stripped hex quantity parses to a `u64`, as the standard
/// radix-16 integer parser takes it: one optional sign, then hex digits;
/// a minus sign demands a zero value.
pub open spec fn spec_parses_hex_u64(s: Seq<char>) -> bool {
    let d = spec_hex_digits_part(s);
    d.len() > 0 && all_hex_digits(d) && spec_hex_value(d) <= u64::MAX && (s.len() > 0 && s[0]
        == '-' ==> spec_hex_value(d) == 0)
}

pub proof fn lemma_hex_value_push(s: Seq<char>, c: char)
    ensures
        spec_hex_value(s.push(c)) == spec_hex_value(s) * 16 + spec_hex_digit(c),
{
    assert(s.push(c).drop_last() =~= s);
}

/// Parse a block-number quantity: strip every leading `0x`, then read the
/// rest as a hexadecimal `u64`.
pub fn parse_hex_u64(value: &str) -> (r: Result<u64, HexParseError>)
    ensures
        match r {
            Ok(v) => spec_parses_hex_u64(spec_strip_0x(value@)) && v == spec_hex_value(
                spec_hex_digits_part(spec_strip_0x(value@)),
            ),
            Err(_) => !spec_parses_hex_u64(spec_strip_0x(value@)),
        },
{
    let chars = str_chars(value);
    let mut start: usize = 0;
    let mut done: bool = false;
    proof {
        assert(chars@.skip(0) =~= chars@);
    }
    while !done && chars.len() - start >= 2
        invariant
            chars@ == value@,
            start <= chars@.len(),
            spec_strip_0x(value@) == spec_strip_0x(chars@.skip(start as int)),
            done ==> !(chars@.skip(start as int).len() >= 2 && chars@.skip(start as int)[0]
                == '0' && chars@.skip(start as int)[1] == 'x'),
        decreases chars@.len() - start + (if done { 0int } else { 1int }),
    {
        if chars[start] == '0' && chars[start + 1] == 'x' {
            proof {
                let tail = chars@.skip(start as int);
                assert(tail[0] == chars@[start as int] && tail[1] == chars@[start + 1]);
                assert(tail.skip(2) =~= chars@.skip(start + 2));
            }
            start = start + 2;
        } else {
            proof {
                let tail = chars@.skip(start as int);
                assert(tail[0] == chars@[start as int] && tail[1] == chars@[start + 1]);
            }
            done = true;
        }
    }
    let ghost stripped = chars@.skip(start as int);
    proof {
        assert(spec_strip_0x(value@) == stripped);
    }
    // sign
    let negative: bool;
    let mut i: usize = start;
    if start < chars.len() && (chars[start] == '+' || chars[start] == '-') {
        negative = chars[start] == '-';
        i = start + 1;
        proof {
            assert(stripped[0] == chars@[start as int]);
            assert(stripped.drop_first() =~= chars@.skip(start + 1));
        }
    } else {
        negative = false;
        proof {
            if start < chars@.len() {
                assert(stripped[0] == chars@[start as int]);
            }
        }
    }
    proof {
        assert(chars@.skip(i as int) =~= spec_hex_digits_part(stripped));
    }
    let ghost digits = chars@.skip(i as int);
    if i == chars.len() {
        return Err(HexParseError::Empty);
    }
    proof {
        assert(spec_hex_digits_part(spec_strip_0x(value@)) == digits);
    }
    let mut acc: u64 = 0;
    let mut j: usize = i;
    while j < chars.len()
        invariant
            chars@ == value@,
            i <= j <= chars@.len(),
            digits == chars@.skip(i as int),
            digits == spec_hex_digits_part(spec_strip_0x(value@)),
            all_hex_digits(digits.take(j - i)),
            acc == spec_hex_value(digits.take(j - i)),
        decreases chars@.len() - j,
    {
        let d = hex_digit_value(chars[j]);
        proof {
            assert(digits[j - i] == chars@[j as int]);
        }
        if d >= 16 {
            proof {
                assert(!is_hex_digit(spec_hex_digits_part(spec_strip_0x(value@))[j - i]));
            }
            return Err(HexParseError::InvalidDigit);
        }
        if acc > (u64::MAX - (d as u64)) / 16 {
            proof {
                lemma_hex_value_push(digits.take(j - i), digits[j - i]);
                assert(digits.take(j - i + 1) =~= digits.take(j - i).push(digits[j - i]));
                let m = u64::MAX as int;
                vstd::arithmetic::div_mod::lemma_fundamental_div_mod(m - d, 16);
                assert(acc * 16 >= ((m - d) / 16 + 1) * 16) by (nonlinear_arith)
                    requires
                        acc >= (m - d) / 16 + 1,
                ;
                assert(((m - d) / 16 + 1) * 16 == ((m - d) / 16) * 16 + 16);
                lemma_hex_prefix_le(digits, j - i + 1);
                assert(spec_hex_value(spec_hex_digits_part(spec_strip_0x(value@)))
                    > u64::MAX);
            }
            return Err(HexParseError::Overflow);
        }
        proof {
            lemma_hex_value_push(digits.take(j - i), digits[j - i]);
            assert(digits.take(j - i + 1) =~= digits.take(j - i).push(digits[j - i]));
            let m = u64::MAX as int;
            vstd::arithmetic::div_mod::lemma_fundamental_div_mod(m - d, 16);
            assert(acc * 16 <= ((m - d) / 16) * 16) by (nonlinear_arith)
                requires
                    acc <= (m - d) / 16,
            ;
        }
        acc = acc * 16 + (d as u64);
        j = j + 1;
    }
    proof {
        assert(digits.take(j - i) =~= digits);
    }
    if negative {
        if acc != 0 {
            return Err(HexParseError::Overflow);
        }
        return Ok(0);
    }
    Ok(acc)
}

/// A prefix of a hex digit string never exceeds the whole value.
proof fn lemma_hex_prefix_le(s: Seq<char>, i: int)
    requires
        0 <= i <= s.len(),
    ensures
        spec_hex_value(s.take(i)) <= spec_hex_value(s),
    decreases s.len() - i,
{
    if i < s.len() {
        lemma_hex_prefix_le(s, i + 1);
        assert(s.take(i + 1).drop_last() =~= s.take(i));
        assert(spec_hex_value(s.take(i + 1)) == spec_hex_value(s.take(i)) * 16
            + spec_hex_digit(s.take(i + 1).last()));
        assert(spec_hex_value(s.take(i)) * 16 >= spec_hex_value(s.take(i)));
    } else {
        assert(s.take(i) =~= s);
    }
}

/// The environment variables the heartbeat runtime reads, exactly as the
/// process found them.
pub struct RuntimeEnv {
    pub network_name: Option<String>,
    pub rpc_https_url: Option<String>,
    pub rpc_wss_url: Option<String>,
    pub chain_id: Option<String>,
    pub ws_connect_timeout_secs: Option<String>,
    pub http_poll_interval_secs: Option<String>,
    pub ws_reconnect_initial_ms: Option<String>,
    pub ws_reconnect_max_ms: Option<String>,
}

/// The validated runtime settings.
#[derive(Clone, Debug)]
pub struct RuntimeConfig {
    pub network_name: String,
    pub rpc_https_url: String,
    pub rpc_wss_url: String,
    pub expected_chain_id: u64,
    pub ws_connect_timeout_secs: u64,
    pub http_poll_interval_secs: u64,
    pub ws_reconnect_initial_ms: u64,
    pub ws_reconnect_max_ms: u64,
}

impl RuntimeConfig {
    /// Validate a snapshot of the environment: the two endpoint URLs are
    /// required, everything else falls back to its default.
    pub fn from_env(env: &RuntimeEnv) -> (r: Result<RuntimeConfig, ConfigError>)
        ensures
            r matches Ok(c) ==> ({
                &&& env.rpc_https_url matches Some(raw) && c.rpc_https_url@ == spec_clean_env(
                    raw@,
                ) && c.rpc_https_url@.len() > 0
                &&& env.rpc_wss_url matches Some(raw) && c.rpc_wss_url@ == spec_clean_env(raw@)
                    && c.rpc_wss_url@.len() > 0
                &&& c.network_name@ == (match env.network_name {
                    Some(raw) => if spec_clean_env(raw@).len() > 0 {
                        spec_clean_env(raw@)
                    } else {
                        "base-mainnet"@
                    },
                    None => "base-mainnet"@,
                })
            }),
    {
        let network_name = env_or_default(env.network_name.as_ref(), "base-mainnet");
        let rpc_https_url = match env_required(env.rpc_https_url.as_ref()) {
            Ok(v) => v,
            Err(e) => {
                return Err(e);
            },
        };
        let rpc_wss_url = match env_required(env.rpc_wss_url.as_ref()) {
            Ok(v) => v,
            Err(e) => {
                return Err(e);
            },
        };
        let expected_chain_id = match env_parse_u64_or_default(env.chain_id.as_ref(), 8453) {
            Ok(v) => v,
            Err(e) => {
                return Err(e);
            },
        };
        let ws_connect_timeout_secs = match env_parse_u64_or_default(
            env.ws_connect_timeout_secs.as_ref(),
            15,
        ) {
            Ok(v) => v,
            Err(e) => {
                return Err(e);
            },
        };
        let http_poll_interval_secs = match env_parse_u64_or_default(
            env.http_poll_interval_secs.as_ref(),
            2,
        ) {
            Ok(v) => v,
            Err(e) => {
                return Err(e);
            },
        };
        let ws_reconnect_initial_ms = match env_parse_u64_or_default(
            env.ws_reconnect_initial_ms.as_ref(),
            1000,
        ) {
            Ok(v) => v,
            Err(e) => {
                return Err(e);
            },
        };
        let ws_reconnect_max_ms = match env_parse_u64_or_default(
            env.ws_reconnect_max_ms.as_ref(),
            30000,
        ) {
            Ok(v) => v,
            Err(e) => {
                return Err(e);
            },
        };
        Ok(
            RuntimeConfig {
                network_name,
                rpc_https_url,
                rpc_wss_url,
                expected_chain_id,
                ws_connect_timeout_secs,
                http_poll_interval_secs,
                ws_reconnect_initial_ms,
                ws_reconnect_max_ms,
            },
        )
    }
}

/// Whether the chain the endpoint serves is the configured one; a
/// mismatch is fatal at startup.
pub fn validate_chain_id(expected: u64, actual: u64) -> (r: bool)
    ensures
        r == (expected == actual),
{
    expected == actual
}

} // verus!
