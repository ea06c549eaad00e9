use vstd::prelude::*;
use vstd::string::StringSliceAdditionalSpecFns;

verus! {

/// Probing units allowed at a time when the setting is left blank.
pub const DEFAULT_WORKERS: u64 = 4;

/// Seconds allowed to each attempt when the setting is left blank.
pub const DEFAULT_TIMEOUT_SECS: u64 = 5;

/// Re-attempts allowed after a failing attempt when the setting is left blank.
pub const DEFAULT_RETRIES: u64 = 3;

/// ASCII whitespace: space, tab, line feed, vertical tab, form feed, carriage return.
pub open spec fn is_blank(b: u8) -> bool {
    b == 32 || (9 <= b && b <= 13)
}

pub open spec fn is_digit(b: u8) -> bool {
    48 <= b && b <= 57
}

pub open spec fn trim_start(s: Seq<u8>) -> Seq<u8>
    decreases s.len(),
{
    if s.len() > 0 && is_blank(s[0]) {
        trim_start(s.drop_first())
    } else {
        s
    }
}

pub open spec fn trim_end(s: Seq<u8>) -> Seq<u8>
    decreases s.len(),
{
    if s.len() > 0 && is_blank(s.last()) {
        trim_end(s.drop_last())
    } else {
        s
    }
}

/// `s` without the whitespace at either end.
pub open spec fn trimmed(s: Seq<u8>) -> Seq<u8> {
    trim_end(trim_start(s))
}

/// The number that the decimal digits `s` write.
pub open spec fn digits_value(s: Seq<u8>) -> nat
    decreases s.len(),
{
    if s.len() == 0 {
        0
    } else {
        digits_value(s.drop_last()) * 10 + (s.last() - 48) as nat
    }
}

/// `s` without its leading `+`, if it has one.
pub open spec fn unsigned_body(s: Seq<u8>) -> Seq<u8> {
    if s.len() > 0 && s[0] == 43 {
        s.drop_first()
    } else {
        s
    }
}

pub open spec fn all_digits(s: Seq<u8>) -> bool {
    forall|i: int| 0 <= i < s.len() ==> is_digit(#[trigger] s[i])
}

/// The number that `s` writes in decimal, with an optional leading `+`.
pub open spec fn unsigned_text(s: Seq<u8>) -> Option<nat> {
    let body = unsigned_body(s);
    if body.len() > 0 && all_digits(body) {
        Some(digits_value(body))
    } else {
        None
    }
}

/// The value of a setting typed as `s`: `default` where it is blank, the
/// number it writes where that fits in a `u64`, and none otherwise.
pub open spec fn setting_value(s: Seq<u8>, default: u64) -> Option<u64> {
    let t = trimmed(s);
    if t.len() == 0 {
        Some(default)
    } else {
        match unsigned_text(t) {
            Some(v) => if v <= u64::MAX as nat {
                Some(v as u64)
            } else {
                None
            },
            None => None,
        }
    }
}

fn is_blank_byte(b: u8) -> (r: bool)
    ensures
        r == is_blank(b),
{
    b == 32 || (9 <= b && b <= 13)
}

proof fn lemma_digits_prefix(s: Seq<u8>, m: int)
    requires
        0 <= m <= s.len(),
        all_digits(s),
    ensures
        digits_value(s.subrange(0, m)) <= digits_value(s),
    decreases s.len(),
{
    if m < s.len() {
        let t = s.drop_last();
        assert(t.subrange(0, m) =~= s.subrange(0, m));
        assert forall|i: int| 0 <= i < t.len() implies is_digit(#[trigger] t[i]) by {
            assert(t[i] == s[i]);
        }
        lemma_digits_prefix(t, m);
        assert(is_digit(s[s.len() - 1]));
        assert(digits_value(s) == digits_value(t) * 10 + (s.last() - 48) as nat);
    } else {
        assert(s.subrange(0, s.len() as int) =~= s);
    }
}

/// Reads a setting typed as `input`: blank (after trimming whitespace) gives
/// `default`; otherwise it must be a decimal number, optionally with a
/// leading `+`, that fits in a `u64`, else none is returned.
pub fn parse_setting(input: &str, default: u64) -> (r: Option<u64>)
    ensures
        r == setting_value(input.spec_bytes(), default),
{
    let b = input.as_bytes();
    let ghost s = b@;
    let n = b.len();
    assert(s.subrange(0, n as int) =~= s);
    let mut lo: usize = 0;
    while lo < n && is_blank_byte(b[lo])
        invariant
            lo <= n,
            n == s.len(),
            b@ == s,
            trim_start(s) == trim_start(s.subrange(lo as int, n as int)),
        decreases n - lo,
    {
        assert(s.subrange(lo as int, n as int).drop_first() =~= s.subrange(lo + 1, n as int));
        lo = lo + 1;
    }
    assert(trim_start(s) == s.subrange(lo as int, n as int));
    let mut hi: usize = n;
    while hi > lo && is_blank_byte(b[hi - 1])
        invariant
            lo <= hi <= n,
            n == s.len(),
            b@ == s,
            trim_start(s) == s.subrange(lo as int, n as int),
            trimmed(s) == trim_end(s.subrange(lo as int, hi as int)),
        decreases hi,
    {
        assert(s.subrange(lo as int, hi as int).drop_last() =~= s.subrange(lo as int, hi - 1));
        hi = hi - 1;
    }
    let ghost t = s.subrange(lo as int, hi as int);
    assert(trimmed(s) == t);
    if lo == hi {
        return Some(default);
    }
    let start: usize = if b[lo] == 43 {
        lo + 1
    } else {
        lo
    };
    let ghost body = s.subrange(start as int, hi as int);
    assert(body =~= unsigned_body(t));
    if start == hi {
        return None;
    }
    let mut v: u64 = 0;
    let mut k: usize = start;
    while k < hi
        invariant
            start <= k <= hi <= n,
            n == s.len(),
            b@ == s,
            body == s.subrange(start as int, hi as int),
            s == input.spec_bytes(),
            trimmed(s) == t,
            t.len() > 0,
            body == unsigned_body(t),
            forall|j: int| start <= j < k ==> is_digit(#[trigger] s[j]),
            v == digits_value(s.subrange(start as int, k as int)),
        decreases hi - k,
    {
        let c = b[k];
        if !(48 <= c && c <= 57) {
            assert(!is_digit(body[k - start]));
            assert(!all_digits(body));
            return None;
        }
        assert(s.subrange(start as int, k + 1).drop_last() =~= s.subrange(start as int, k as int));
        let d = (c - 48) as u64;
        match v.checked_mul(10) {
            Some(m) => match m.checked_add(d) {
                Some(x) => {
                    v = x;
                },
                None => {
                    proof {
                        lemma_overflow_rest(s, start as int, k as int, hi as int);
                        assert(all_digits(body) ==> digits_value(body) > u64::MAX);
                    }
                    return None;
                },
            },
            None => {
                proof {
                    lemma_overflow_rest(s, start as int, k as int, hi as int);
                }
                return None;
            },
        }
        k = k + 1;
    }
    assert(s.subrange(start as int, k as int) =~= body);
    Some(v)
}

/// Where the digits up to `k` already exceed `u64::MAX`, so does the whole
/// run of digits, if it is one.
proof fn lemma_overflow_rest(s: Seq<u8>, start: int, k: int, hi: int)
    requires
        0 <= start <= k < hi <= s.len(),
        digits_value(s.subrange(start, k + 1)) > u64::MAX,
    ensures
        all_digits(s.subrange(start, hi)) ==> digits_value(s.subrange(start, hi)) > u64::MAX,
{
    let body = s.subrange(start, hi);
    if all_digits(body) {
        assert(body.subrange(0, k + 1 - start) =~= s.subrange(start, k + 1));
        lemma_digits_prefix(body, k + 1 - start);
    }
}

/// A setting that was typed but is not a number.
#[derive(Debug, PartialEq, Eq, Structural)]
pub enum ConfigError {
    /// The number of probing units allowed at a time.
    Workers,
    /// The timeout of each attempt, in seconds.
    Timeout,
    /// The number of re-attempts after a failing attempt.
    Retries,
}

/// The settings of a run, fixed before any probing starts.
#[derive(Debug, PartialEq, Eq, Structural)]
pub struct Config {
    /// The bound on probing units in flight; none means one unit per target.
    pub concurrency_limit: Option<u64>,
    /// The timeout of each attempt, in seconds.
    pub timeout_secs: u64,
    /// Re-attempts allowed after a failing first attempt.
    pub retry_budget: u64,
}

/// The concurrency bound for `workers` units: zero leaves it unbounded.
pub open spec fn limit_of(workers: u64) -> Option<u64> {
    if workers == 0 {
        None
    } else {
        Some(workers)
    }
}

impl Config {
    /// The settings typed as `workers`, `timeout` and `retries`, each blank
    /// one taking its default; the first that is not a number is the error.
    pub fn from_inputs(workers: &str, timeout: &str, retries: &str) -> (r: Result<
        Config,
        ConfigError,
    >)
        ensures
            setting_value(workers.spec_bytes(), DEFAULT_WORKERS) is None ==> r == Err::<
                Config,
                ConfigError,
            >(ConfigError::Workers),
            setting_value(workers.spec_bytes(), DEFAULT_WORKERS) is Some && setting_value(
                timeout.spec_bytes(),
                DEFAULT_TIMEOUT_SECS,
            ) is None ==> r == Err::<Config, ConfigError>(ConfigError::Timeout),
            setting_value(workers.spec_bytes(), DEFAULT_WORKERS) is Some && setting_value(
                timeout.spec_bytes(),
                DEFAULT_TIMEOUT_SECS,
            ) is Some && setting_value(retries.spec_bytes(), DEFAULT_RETRIES) is None ==> r
                == Err::<Config, ConfigError>(ConfigError::Retries),
            r is Ok == (setting_value(workers.spec_bytes(), DEFAULT_WORKERS) is Some
                && setting_value(timeout.spec_bytes(), DEFAULT_TIMEOUT_SECS) is Some
                && setting_value(retries.spec_bytes(), DEFAULT_RETRIES) is Some),
            r matches Ok(c) ==> {
                &&& setting_value(workers.spec_bytes(), DEFAULT_WORKERS) matches Some(w)
                    && c.concurrency_limit == limit_of(w)
                &&& setting_value(timeout.spec_bytes(), DEFAULT_TIMEOUT_SECS) == Some(
                    c.timeout_secs,
                )
                &&& setting_value(retries.spec_bytes(), DEFAULT_RETRIES) == Some(c.retry_budget)
            },
    {
        let w = match parse_setting(workers, DEFAULT_WORKERS) {
            Some(w) => w,
            None => return Err(ConfigError::Workers),
        };
        let t = match parse_setting(timeout, DEFAULT_TIMEOUT_SECS) {
            Some(t) => t,
            None => return Err(ConfigError::Timeout),
        };
        let r = match parse_setting(retries, DEFAULT_RETRIES) {
            Some(r) => r,
            None => return Err(ConfigError::Retries),
        };
        let concurrency_limit = if w == 0 {
            None
        } else {
            Some(w)
        };
        Ok(Config { concurrency_limit, timeout_secs: t, retry_budget: r })
    }
}

} // verus!
