//! Configuration, from the values of the environment variables, with
//! defaults for what is missing or does not parse.

use vstd::prelude::*;
use crate::text::{chars_of, is_blank, is_blank_spec, trim, trim_spec, to_ascii_lowercase, ascii_lower_spec};
use crate::text::{is_white_space, lemma_trim_bounds};

verus! {

broadcast use vstd::string::group_string_axioms;

/// Settings of the service.
#[derive(Debug, Clone)]
pub struct Config {
    /// Address to listen on.
    pub host: String,
    /// Port to listen on.
    pub port: u16,
    /// SQLite connection string.
    pub database_url: String,
    /// Optional API key; `None` leaves the service open.
    pub api_key: Option<String>,
    /// Requests each client address may make within one window.
    pub rate_limit: u32,
    /// Length of the rate-limit window in seconds.
    pub rate_window_secs: u64,
    /// Whether to trust the `X-Forwarded-For` header of a reverse proxy.
    pub trust_proxy: bool,
}

/// Whether every character of `s` is an ASCII digit.
pub open spec fn all_digits(s: Seq<char>) -> bool {
    forall|i: int| 0 <= i < s.len() ==> '0' <= #[trigger] s[i] <= '9'
}

/// The value of a string of decimal digits.
pub open spec fn digits_value(s: Seq<char>) -> nat
    decreases s.len(),
{
    if s.len() == 0 {
        0
    } else {
        digits_value(s.drop_last()) * 10 + ((s.last() as u32) - ('0' as u32)) as nat
    }
}

/// What `str::parse` gives for an unsigned integer type with largest value
/// `max`: an optional `+`, then at least one ASCII digit and nothing else,
/// with a value no larger than `max`.
pub open spec fn parse_unsigned_spec(s: Seq<char>, max: nat) -> Option<nat> {
    let d = if s.len() > 0 && s[0] == '+' {
        s.drop_first()
    } else {
        s
    };
    if d.len() > 0 && all_digits(d) && digits_value(d) <= max {
        Some(digits_value(d))
    } else {
        None
    }
}

proof fn lemma_digits_value_grows(s: Seq<char>, i: int)
    requires
        0 <= i <= s.len(),
        all_digits(s),
    ensures
        digits_value(s.take(i)) <= digits_value(s),
    decreases s.len() - i,
{
    if i < s.len() {
        lemma_digits_value_grows(s, i + 1);
        assert(s.take(i + 1).drop_last() =~= s.take(i));
    } else {
        assert(s.take(i) =~= s);
    }
}

/// Reading a number: the empty string of digits is worth 0 and each further
/// digit `c` multiplies the value by ten and adds `c - '0'`. A string of one
/// or more ASCII digits, after an optional `+`, gives its value when that is
/// at most `max`, and nothing otherwise; a string holding any other
/// character (or no digit) gives nothing.
pub proof fn lemma_parse_unsigned(s: Seq<char>, c: char, max: nat)
    ensures
        digits_value(Seq::<char>::empty()) == 0,
        '0' <= c <= '9' ==> digits_value(s.push(c)) == digits_value(s) * 10 + (c as u32 - '0' as u32),
        s.len() > 0 && all_digits(s) ==> parse_unsigned_spec(s, max) == if digits_value(s) <= max {
            Some(digits_value(s))
        } else {
            None::<nat>
        },
        s.len() > 0 && all_digits(s) ==> parse_unsigned_spec(seq!['+'] + s, max)
            == parse_unsigned_spec(s, max),
        s.len() == 0 ==> parse_unsigned_spec(s, max) is None,
        (exists|i: int| 0 < i < s.len() && !('0' <= #[trigger] s[i] <= '9'))
            ==> parse_unsigned_spec(s, max) is None,
        s.len() > 0 && s[0] != '+' && !('0' <= s[0] <= '9') ==> parse_unsigned_spec(s, max) is None,
{
    assert(s.push(c).drop_last() =~= s);
    assert((seq!['+'] + s).drop_first() =~= s);
    if s.len() > 0 && all_digits(s) {
        assert(s[0] != '+');
    }
    if exists|i: int| 0 < i < s.len() && !('0' <= #[trigger] s[i] <= '9') {
        let i = choose|i: int| 0 < i < s.len() && !('0' <= #[trigger] s[i] <= '9');
        if s[0] == '+' {
            assert(s.drop_first()[i - 1] == s[i]);
        }
    }
}

/// Parses an unsigned decimal integer no larger than `max`.
pub fn parse_unsigned(s: &str, max: u64) -> (r: Option<u64>)
    ensures
        match parse_unsigned_spec(s@, max as nat) {
            Some(v) => r == Some(v as u64),
            None => r is None,
        },
{
    let cs = chars_of(s);
    let n = cs.len();
    let start: usize = if n > 0 && cs[0] == '+' {
        1
    } else {
        0
    };
    let ghost d = if s@.len() > 0 && s@[0] == '+' {
        s@.drop_first()
    } else {
        s@
    };
    assert(d =~= s@.subrange(start as int, n as int));
    if start >= n {
        return None;
    }
    let mut acc: u64 = 0;
    let mut i: usize = start;
    while i < n
        invariant
            cs@ == s@,
            n == s@.len(),
            start <= i <= n,
            d =~= s@.subrange(start as int, n as int),
            d == (if s@.len() > 0 && s@[0] == '+' {
                s@.drop_first()
            } else {
                s@
            }),
            all_digits(d.take(i - start)),
            acc as nat == digits_value(d.take(i - start)),
            acc <= max,
        decreases n - i,
    {
        let c = cs[i];
        proof {
            assert(d[i - start] == c);
            assert(d.take(i - start + 1).drop_last() =~= d.take(i - start));
        }
        if c < '0' || c > '9' {
            proof {
                let k = i - start;
                assert(!('0' <= d[k] && d[k] <= '9'));
                assert(!all_digits(d));
                assert(parse_unsigned_spec(s@, max as nat) is None);
            }
            return None;
        }
        let digit = (c as u32 - '0' as u32) as u64;
        let next: u128 = (acc as u128) * 10 + (digit as u128);
        proof {
            let k = i - start;
            assert forall|j: int| 0 <= j < k + 1 implies '0' <= #[trigger] d.take(k + 1)[j] <= '9' by {
                if j < k {
                    assert(d.take(k + 1)[j] == d.take(k)[j]);
                }
            }
            assert(next == digits_value(d.take(k + 1)));
        }
        if next > max as u128 {
            proof {
                if all_digits(d) {
                    lemma_digits_value_grows(d, i - start + 1);
                }
                assert(parse_unsigned_spec(s@, max as nat) is None);
            }
            return None;
        }
        acc = next as u64;
        i = i + 1;
    }
    assert(d.take(n - start) =~= d);
    Some(acc)
}

/// A value read as a flag: after trimming, `1`, `true` or `yes` in any ASCII case.
pub open spec fn truthy_spec(s: Seq<char>) -> bool {
    let t = ascii_lower_spec(trim_spec(s));
    t == "1"@ || t == "true"@ || t == "yes"@
}

/// Whether two strings hold the same characters.
pub fn str_eq(a: &str, b: &str) -> (r: bool)
    ensures
        r == (a@ == b@),
{
    let ac = chars_of(a);
    let bc = chars_of(b);
    let n = ac.len();
    if n != bc.len() {
        return false;
    }
    let mut i: usize = 0;
    while i < n
        invariant
            ac@ == a@,
            bc@ == b@,
            n == a@.len(),
            n == b@.len(),
            i <= n,
            forall|j: int| 0 <= j < i ==> a@[j] == b@[j],
        decreases n - i,
    {
        if ac[i] != bc[i] {
            return false;
        }
        i = i + 1;
    }
    assert(a@ =~= b@);
    true
}

/// Reads a flag: `1`, `true` or `yes` (trimmed, in any ASCII case) is true.
pub fn truthy(s: &str) -> (r: bool)
    ensures
        r == truthy_spec(s@),
{
    let t = to_ascii_lowercase(trim(s));
    let t = t.as_str();
    str_eq(t, "1") || str_eq(t, "true") || str_eq(t, "yes")
}

/// The configuration for the given variable values (each `None` when the
/// variable is not set): `HOST`, `PORT`, `DATABASE_URL`, `API_KEY`,
/// `RATE_LIMIT`, `RATE_WINDOW_SECS` and `TRUST_PROXY`.
pub open spec fn config_spec(
    host: Option<Seq<char>>,
    port: Option<Seq<char>>,
    database_url: Option<Seq<char>>,
    api_key: Option<Seq<char>>,
    rate_limit: Option<Seq<char>>,
    rate_window_secs: Option<Seq<char>>,
    trust_proxy: Option<Seq<char>>,
    c: Config,
) -> bool {
    &&& c.host@ == (match host {
        Some(h) => h,
        None => "127.0.0.1"@,
    })
    &&& c.port as nat == number_or(port, 0xffff, 8080)
    &&& c.database_url@ == (match database_url {
        Some(u) => u,
        None => "sqlite://data/poems.db"@,
    })
    &&& match api_key {
        Some(k) => if is_blank_spec(k) {
            c.api_key is None
        } else {
            c.api_key matches Some(x) && x@ == k
        },
        None => c.api_key is None,
    }
    &&& c.rate_limit as nat == number_or(rate_limit, 0xffff_ffff, 100)
    &&& c.rate_window_secs as nat == number_or(rate_window_secs, 0xffff_ffff_ffff_ffff, 60)
    &&& c.trust_proxy == (match trust_proxy {
        Some(t) => truthy_spec(t),
        None => false,
    })
}

/// The number a variable holds, or `default` when it is unset or does not parse.
pub open spec fn number_or(v: Option<Seq<char>>, max: nat, default: nat) -> nat {
    match v {
        Some(s) => match parse_unsigned_spec(s, max) {
            Some(n) => n,
            None => default,
        },
        None => default,
    }
}

fn number_or_exec(v: &Option<String>, max: u64, default: u64) -> (r: u64)
    requires
        default <= max,
    ensures
        r as nat == number_or(opt_view(v), max as nat, default as nat),
{
    match v {
        Some(s) => match parse_unsigned(s.as_str(), max) {
            Some(n) => n,
            None => default,
        },
        None => default,
    }
}

/// The view of an optional string.
pub open spec fn opt_view(s: &Option<String>) -> Option<Seq<char>> {
    match s {
        Some(x) => Some(x@),
        None => None,
    }
}

/// What a configuration holds. The API key is the value of `API_KEY`
/// exactly as given, character for character (no case folding, no
/// trimming), unless the value is empty or all white space, in which case,
/// as when the variable is unset, there is no key. Unset variables take
/// their defaults: host 127.0.0.1, port 8080, database
/// sqlite://data/poems.db, 100 requests per 60-second window, proxy not
/// trusted; a set host or database URL is taken as given.
pub proof fn lemma_config_values(
    host: Option<Seq<char>>,
    port: Option<Seq<char>>,
    database_url: Option<Seq<char>>,
    api_key: Option<Seq<char>>,
    rate_limit: Option<Seq<char>>,
    rate_window_secs: Option<Seq<char>>,
    trust_proxy: Option<Seq<char>>,
    c: Config,
)
    requires
        config_spec(host, port, database_url, api_key, rate_limit, rate_window_secs, trust_proxy, c),
    ensures
        match api_key {
            None => c.api_key is None,
            Some(k) => if forall|i: int| 0 <= i < k.len() ==> is_white_space(#[trigger] k[i]) {
                c.api_key is None
            } else {
                c.api_key matches Some(x) && x@ == k
            },
        },
        host is None ==> c.host@ == "127.0.0.1"@,
        host matches Some(h) ==> c.host@ == h,
        database_url is None ==> c.database_url@ == "sqlite://data/poems.db"@,
        database_url matches Some(u) ==> c.database_url@ == u,
        port is None ==> c.port == 8080,
        rate_limit is None ==> c.rate_limit == 100,
        rate_window_secs is None ==> c.rate_window_secs == 60,
        trust_proxy is None ==> !c.trust_proxy,
{
    if let Some(k) = api_key {
        lemma_trim_bounds(k);
    }
}

impl Config {
    /// The configuration for the values of `HOST`, `PORT`, `DATABASE_URL`,
    /// `API_KEY`, `RATE_LIMIT`, `RATE_WINDOW_SECS` and `TRUST_PROXY`, each
    /// `None` when unset. Missing or unparsable values take their defaults
    /// (127.0.0.1, 8080, sqlite://data/poems.db, no key, 100, 60 s, false);
    /// a blank API key counts as none.
    pub fn from_values(
        host: Option<String>,
        port: Option<String>,
        database_url: Option<String>,
        api_key: Option<String>,
        rate_limit: Option<String>,
        rate_window_secs: Option<String>,
        trust_proxy: Option<String>,
    ) -> (c: Config)
        ensures
            config_spec(
                opt_view(&host),
                opt_view(&port),
                opt_view(&database_url),
                opt_view(&api_key),
                opt_view(&rate_limit),
                opt_view(&rate_window_secs),
                opt_view(&trust_proxy),
                c,
            ),
    {
        let p = number_or_exec(&port, 0xffff, 8080);
        let rl = number_or_exec(&rate_limit, 0xffff_ffff, 100);
        let rw = number_or_exec(&rate_window_secs, 0xffff_ffff_ffff_ffff, 60);
        let tp = match &trust_proxy {
            Some(t) => truthy(t.as_str()),
            None => false,
        };
        let key = match api_key {
            Some(k) => if is_blank(k.as_str()) {
                None
            } else {
                Some(k)
            },
            None => None,
        };
        Config {
            host: match host {
                Some(h) => h,
                None => "127.0.0.1".to_string(),
            },
            port: p as u16,
            database_url: match database_url {
                Some(u) => u,
                None => "sqlite://data/poems.db".to_string(),
            },
            api_key: key,
            rate_limit: rl as u32,
            rate_window_secs: rw,
            trust_proxy: tp,
        }
    }
}

} // verus!
