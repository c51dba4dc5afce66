//! API-key authentication.
//!
//! Without a configured key the service is open and every request passes.
//! With a key, a request must carry `X-API-Key: <key>` or
//! `Authorization: Bearer <key>`.

use vstd::prelude::*;
use vstd::string::StringSliceAdditionalSpecFns;
use crate::text::{has_prefix, strip_prefix};

verus! {

broadcast use vstd::string::group_string_axioms;

/// The byte at `i`, or 0 past the end (how the comparison pads the shorter input).
pub open spec fn padded(s: Seq<u8>, i: int) -> u8 {
    if 0 <= i < s.len() {
        s[i]
    } else {
        0u8
    }
}

/// The prefix that carries a key in an `Authorization` header.
pub open spec fn bearer_prefix() -> Seq<char> {
    "Bearer "@
}

/// Whether a request with these header values passes, for the configured key.
///
/// `x_api_key` and `authorization` are the values of the two headers where
/// they are present and readable as text.
pub open spec fn authorized_spec(
    key: Option<Seq<char>>,
    x_api_key: Option<Seq<char>>,
    authorization: Option<Seq<char>>,
) -> bool {
    match key {
        None => true,
        Some(k) => match x_api_key {
            Some(v) => v == k,
            None => match authorization {
                Some(h) => has_prefix(h, bearer_prefix()) && h.skip(bearer_prefix().len() as int)
                    == k,
                None => false,
            },
        },
    }
}

proof fn lemma_or_zero(d: u8, x: u8, y: u8)
    ensures
        (d | (x ^ y)) == 0 <==> (d == 0 && x == y),
{
    assert((d | (x ^ y)) == 0 <==> (d == 0 && x == y)) by (bit_vector);
}

/// Whether two strings are equal, compared in time that depends only on
/// their lengths, so that the time taken tells nothing of where a guessed
/// key goes wrong.
pub fn constant_time_eq(a: &str, b: &str) -> (r: bool)
    ensures
        r == (a@ == b@),
        r == (a.spec_bytes() == b.spec_bytes()),
{
    let x = a.as_bytes();
    let y = b.as_bytes();
    let la = x.len();
    let lb = y.len();
    let mut diff: u8 = if la != lb {
        1u8
    } else {
        0u8
    };
    let n = if la >= lb {
        la
    } else {
        lb
    };
    let mut i: usize = 0;
    while i < n
        invariant
            x@ == a.spec_bytes(),
            y@ == b.spec_bytes(),
            la == x@.len(),
            lb == y@.len(),
            n == if la >= lb {
                la
            } else {
                lb
            },
            i <= n,
            (diff == 0) <==> (la == lb && forall|j: int|
                0 <= j < i ==> #[trigger] padded(x@, j) == padded(y@, j)),
        decreases n - i,
    {
        let p = if i < la {
            x[i]
        } else {
            0u8
        };
        let q = if i < lb {
            y[i]
        } else {
            0u8
        };
        proof {
            lemma_or_zero(diff, p, q);
            assert(p == padded(x@, i as int));
            assert(q == padded(y@, i as int));
            if la == lb && (forall|j: int| 0 <= j < i ==> #[trigger] padded(x@, j) == padded(y@, j))
                && p == q {
                assert forall|j: int| 0 <= j < i + 1 implies #[trigger] padded(x@, j) == padded(
                    y@,
                    j,
                ) by {
                    if j == i {
                    } else {
                    }
                }
            }
        }
        diff = diff | (p ^ q);
        i = i + 1;
    }
    proof {
        if diff == 0 {
            assert forall|j: int| 0 <= j < x@.len() implies x@[j] == y@[j] by {
                assert(padded(x@, j) == padded(y@, j));
            }
            assert(x@ =~= y@);
        } else if x@ == y@ {
            assert forall|j: int| 0 <= j < n implies #[trigger] padded(x@, j) == padded(y@, j) by {
            }
        }
        vstd::utf8::encode_utf8_decode_utf8(a@);
        vstd::utf8::encode_utf8_decode_utf8(b@);
    }
    diff == 0
}

/// API-key authentication settings.
#[derive(Clone, Debug)]
pub struct Auth {
    /// The configured API key; `None` turns authentication off.
    pub key: Option<String>,
}

impl Auth {
    /// Authentication with the given key, or none when `key` is `None`.
    pub fn new(key: Option<String>) -> (r: Self)
        ensures
            r.key == key,
    {
        Auth { key }
    }

    /// The configured key, as characters.
    pub open spec fn key_view(&self) -> Option<Seq<char>> {
        match self.key {
            Some(k) => Some(k@),
            None => None,
        }
    }

    /// Whether a request passes: always without a key; with one, the
    /// `X-API-Key` header must hold it, or, when that header is absent, an
    /// `Authorization` header must hold `Bearer ` followed by it.
    pub fn is_authorized(&self, x_api_key: Option<&str>, authorization: Option<&str>) -> (r: bool)
        ensures
            r == authorized_spec(self.key_view(), opt_view(x_api_key), opt_view(authorization)),
    {
        let expected: &str = match &self.key {
            None => return true,
            Some(k) => k.as_str(),
        };
        match x_api_key {
            Some(v) => constant_time_eq(v, expected),
            None => match authorization {
                Some(h) => match strip_prefix(h, "Bearer ") {
                    Some(rest) => constant_time_eq(rest, expected),
                    None => false,
                },
                None => false,
            },
        }
    }
}

/// The optional string as characters.
pub open spec fn opt_view(s: Option<&str>) -> Option<Seq<char>> {
    match s {
        Some(v) => Some(v@),
        None => None,
    }
}

/// The authentication rules. Without a key every request passes. With a
/// key `k`, a request carrying `X-API-Key` passes exactly when that header
/// holds `k` (the `Authorization` header is then not looked at); without
/// it, a request passes exactly when `Authorization` holds `Bearer ` and
/// `k`; a request with neither header is refused.
pub proof fn lemma_auth_rules(
    k: Option<Seq<char>>,
    x_api_key: Option<Seq<char>>,
    authorization: Option<Seq<char>>,
)
    ensures
        k is None ==> authorized_spec(k, x_api_key, authorization),
        k matches Some(key) ==> (authorized_spec(k, x_api_key, authorization) <==> match x_api_key {
            Some(x) => x == key,
            None => match authorization {
                Some(h) => h == bearer_prefix() + key,
                None => false,
            },
        }),
{
    if let Some(key) = k {
        if x_api_key is None {
            if let Some(h) = authorization {
                let b = bearer_prefix();
                if has_prefix(h, b) {
                    let rest = h.skip(b.len() as int);
                    assert(h =~= h.take(b.len() as int) + rest);
                    if h == b + key {
                        assert(rest =~= key);
                    }
                } else {
                    if h == b + key {
                        assert(h.take(b.len() as int) =~= b);
                    }
                }
            }
        }
    }
}

} // verus!
