//! Credentials and endpoint settings read from the environment.
use vstd::prelude::*;
use crate::text::{to_chars, from_chars, occurs_at, contains_seq};

verus! {

/// How requests to the model endpoint authenticate.
#[derive(Debug, Clone)]
pub enum Auth {
    /// A key sent in a header named `key` with value `value`.
    ApiKey { key: String, value: String },
    /// A bearer token.
    BearerToken(String),
}

/// What an `Auth` holds.
pub enum AuthView {
    ApiKey { key: Seq<char>, value: Seq<char> },
    BearerToken(Seq<char>),
}

impl View for Auth {
    type V = AuthView;

    open spec fn view(&self) -> AuthView {
        match self {
            Auth::ApiKey { key, value } => AuthView::ApiKey { key: key@, value: value@ },
            Auth::BearerToken(t) => AuthView::BearerToken(t@),
        }
    }
}

/// The first position of `c` in `s`, or `s.len()` when there is none.
pub open spec fn first_index_of(s: Seq<char>, c: char) -> int
    decreases s.len(),
{
    if s.len() == 0 {
        0
    } else if s[0] == c {
        0
    } else {
        1 + first_index_of(s.drop_first(), c)
    }
}

/// The authentication that a setting stands for: `key|value` is a header
/// key and value, split at the first `|`; anything else is a bearer token.
pub open spec fn auth_spec(s: Seq<char>) -> AuthView {
    let i = first_index_of(s, '|');
    if i < s.len() {
        AuthView::ApiKey { key: s.take(i), value: s.skip(i + 1) }
    } else {
        AuthView::BearerToken(s)
    }
}

proof fn lemma_first_index_of(s: Seq<char>, c: char)
    ensures
        0 <= first_index_of(s, c) <= s.len(),
        forall|j: int| 0 <= j < first_index_of(s, c) ==> s[j] != c,
        first_index_of(s, c) < s.len() ==> s[first_index_of(s, c)] == c,
    decreases s.len(),
{
    if s.len() > 0 && s[0] != c {
        lemma_first_index_of(s.drop_first(), c);
        assert forall|j: int| 0 <= j < first_index_of(s, c) implies s[j] != c by {
            if j > 0 {
                assert(s[j] == s.drop_first()[j - 1]);
            }
        }
    }
}

/// Reads an authentication setting (see `auth_spec`); every setting gives
/// one.
pub fn openai_auth_from_string(string: String) -> (r: Option<Auth>)
    ensures
        r matches Some(a) && a@ == auth_spec(string@),
{
    let v = to_chars(string.as_str());
    let mut i: usize = 0;
    while i < v.len() && v[i] != '|'
        invariant
            i <= v@.len(),
            v@ == string@,
            forall|j: int| 0 <= j < i ==> v@[j] != '|',
        decreases v@.len() - i,
    {
        i += 1;
    }
    proof {
        lemma_first_index_of(string@, '|');
        let f = first_index_of(string@, '|');
        if f < i {
            assert(v@[f] == '|');
        }
        if i < f {
            assert(v@[i as int] == '|');
        }
    }
    if i < v.len() {
        let mut key: Vec<char> = Vec::new();
        let mut k: usize = 0;
        while k < i
            invariant
                k <= i < v@.len(),
                key@ == v@.take(k as int),
            decreases i - k,
        {
            key.push(v[k]);
            k += 1;
            proof {
                assert(v@.take(k as int) =~= v@.take(k - 1).push(v@[k - 1]));
            }
        }
        let mut value: Vec<char> = Vec::new();
        let mut m: usize = i + 1;
        while m < v.len()
            invariant
                i + 1 <= m <= v@.len(),
                value@ == v@.subrange(i + 1, m as int),
            decreases v@.len() - m,
        {
            value.push(v[m]);
            m += 1;
            proof {
                assert(v@.subrange(i + 1, m as int) =~= v@.subrange(i + 1, m - 1).push(
                    v@[m - 1],
                ));
            }
        }
        proof {
            assert(value@ =~= v@.skip(i + 1));
        }
        Some(Auth::ApiKey { key: from_chars(&key), value: from_chars(&value) })
    } else {
        Some(Auth::BearerToken(string))
    }
}

/// A `key|value` setting splits losslessly: the key holds no `|`, and the
/// key, a `|` and the value give back the setting.
pub proof fn lemma_api_key_roundtrip(s: Seq<char>)
    ensures
        auth_spec(s) matches AuthView::ApiKey { key, value } ==> key + seq!['|'] + value == s
            && !contains_seq(key, seq!['|']),
{
    lemma_first_index_of(s, '|');
    let i = first_index_of(s, '|');
    if i < s.len() {
        let key = s.take(i);
        assert(key + seq!['|'] + s.skip(i + 1) =~= s);
        assert forall|j: int| !occurs_at(key, seq!['|'], j) by {
            if occurs_at(key, seq!['|'], j) {
                assert(key.subrange(j, j + 1)[0] == '|');
                assert(key[j] == s[j]);
            }
        }
    }
}

/// The settings read from the environment.
#[derive(Debug, Clone)]
pub struct EnvVars {
    pub api_key: Option<Auth>,
    pub v1_endpoint: String,
}

/// The settings from the values of `API_KEY` and `V1_ENDPOINT` (`None`
/// where unset). The endpoint is required.
pub fn env_vars_from(api_key: Option<String>, v1_endpoint: Option<String>) -> (r: Result<
    EnvVars,
    &'static str,
>)
    ensures
        match r {
            Ok(e) => v1_endpoint matches Some(v) && e.v1_endpoint@ == v@ && match api_key {
                Some(k) => e.api_key matches Some(a) && a@ == auth_spec(k@),
                None => e.api_key is None,
            },
            Err(m) => v1_endpoint is None && m@ == "Please provied a v1 endpoint in .env"@,
        },
{
    let v1 = match v1_endpoint {
        Some(v) => v,
        None => return Err("Please provied a v1 endpoint in .env"),
    };
    let auth = match api_key {
        Some(k) => openai_auth_from_string(k),
        None => None,
    };
    Ok(EnvVars { api_key: auth, v1_endpoint: v1 })
}

} // verus!
