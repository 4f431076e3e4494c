//! API-key validation and masking.
//!
//! A key is valid when, after trimming surrounding whitespace, it reads
//! `rs_live_` or `rs_test_` followed by at least sixteen ASCII
//! alphanumerics.
use vstd::prelude::*;

verus! {

/// API-key environment.
#[derive(Debug, Clone, Copy, PartialEq, Eq, Structural)]
pub enum Environment {
    /// Live/production environment.
    Live,
    /// Test/sandbox environment.
    Test,
}

/// Authentication failure.
#[derive(Debug, Clone)]
pub enum AuthenticationError {
    /// No key, or an empty key, was supplied.
    MissingApiKey,
    /// The key does not match the accepted format; carries the masked
    /// key for safe reporting.
    InvalidApiKey {
        /// The offending key, truncated for logging.
        masked_key: String,
    },
}

/// ASCII whitespace stripped from the ends of a key.
pub open spec fn is_ws(c: char) -> bool {
    c == ' ' || c == '\t' || c == '\n' || c == '\r'
}

/// A character allowed in the body of a key.
pub open spec fn is_key_char(c: char) -> bool {
    ('a' <= c && c <= 'z') || ('A' <= c && c <= 'Z') || ('0' <= c && c <= '9')
}

/// The whitespace-trimmed prefix boundary: index of the first character
/// that is not whitespace.
pub open spec fn ws_prefix_len(s: Seq<char>) -> int
    decreases s.len(),
{
    if s.len() > 0 && is_ws(s[0]) {
        1 + ws_prefix_len(s.subrange(1, s.len() as int))
    } else {
        0
    }
}

/// The whitespace-trimmed suffix boundary: length after trailing
/// whitespace is removed.
pub open spec fn ws_trimmed_end(s: Seq<char>) -> int
    decreases s.len(),
{
    if s.len() > 0 && is_ws(s[s.len() - 1]) {
        ws_trimmed_end(s.drop_last())
    } else {
        s.len() as int
    }
}

/// The key with surrounding ASCII whitespace removed.
pub open spec fn trimmed(s: Seq<char>) -> Seq<char> {
    let t = s.subrange(0, ws_trimmed_end(s));
    t.subrange(if ws_prefix_len(t) <= t.len() {
        ws_prefix_len(t)
    } else {
        t.len() as int
    }, t.len() as int)
}

/// Whether a trimmed key matches the accepted format with the given
/// prefix.
pub open spec fn key_matches(t: Seq<char>, prefix: Seq<char>) -> bool {
    &&& t.len() >= 24
    &&& t.subrange(0, 8) == prefix
    &&& forall|i: int| 8 <= i < t.len() ==> is_key_char(#[trigger] t[i])
}

/// The masked form of an offending key: its first ten characters and an
/// ellipsis, or the whole key when it is short.
pub open spec fn masked_of(t: Seq<char>) -> Seq<char> {
    if t.len() > 10 {
        t.subrange(0, 10) + "..."@
    } else {
        t
    }
}

proof fn lemma_ws_bounds(s: Seq<char>)
    ensures
        0 <= ws_prefix_len(s) <= s.len(),
        0 <= ws_trimmed_end(s) <= s.len(),
    decreases s.len(),
{
    if s.len() > 0 && is_ws(s[0]) {
        lemma_ws_bounds(s.subrange(1, s.len() as int));
    }
    if s.len() > 0 && is_ws(s[s.len() - 1]) {
        lemma_ws_bounds(s.drop_last());
    }
}

fn collect_chars(s: &str) -> (r: Vec<char>)
    ensures
        r@ == s@,
{
    let n = s.unicode_len();
    let mut r: Vec<char> = Vec::new();
    let mut i: usize = 0;
    while i < n
        invariant
            n == s@.len(),
            i <= n,
            r@ == s@.subrange(0, i as int),
        decreases n - i,
    {
        let c = s.get_char(i);
        r.push(c);
        proof {
            assert(r@ =~= s@.subrange(0, i + 1 as int));
        }
        i = i + 1;
    }
    proof {
        assert(s@.subrange(0, n as int) =~= s@);
    }
    r
}

fn is_ws_exec(c: char) -> (r: bool)
    ensures
        r == is_ws(c),
{
    c == ' ' || c == '\t' || c == '\n' || c == '\r'
}

/// Trim surrounding ASCII whitespace, returning the trimmed character
/// vector.
fn trim_chars(cv: &Vec<char>) -> (r: Vec<char>)
    ensures
        r@ == trimmed(cv@),
{
    proof {
        lemma_ws_bounds(cv@);
        assert(cv@.subrange(0, cv@.len() as int) =~= cv@);
    }
    let mut end: usize = cv.len();
    while end > 0 && is_ws_exec(cv[end - 1])
        invariant
            end <= cv@.len(),
            ws_trimmed_end(cv@) == ws_trimmed_end(cv@.subrange(0, end as int)),
            ws_trimmed_end(cv@.subrange(0, end as int)) <= end,
        decreases end,
    {
        proof {
            assert(cv@.subrange(0, end as int).drop_last() =~= cv@.subrange(0, end - 1));
            assert(cv@.subrange(0, end as int).last() == cv@[end - 1]);
            lemma_ws_bounds(cv@.subrange(0, end - 1));
        }
        end = end - 1;
    }
    proof {
        assert(ws_trimmed_end(cv@.subrange(0, end as int)) == end) by {
            if end > 0 {
                assert(cv@.subrange(0, end as int).last() == cv@[end - 1]);
            }
        }
    }
    let ghost t = cv@.subrange(0, ws_trimmed_end(cv@));
    proof {
        assert(t =~= cv@.subrange(0, end as int));
        lemma_ws_bounds(t);
        assert(t.subrange(0, t.len() as int) =~= t);
    }
    let mut start: usize = 0;
    while start < end && is_ws_exec(cv[start])
        invariant
            start <= end <= cv@.len(),
            t == cv@.subrange(0, end as int),
            ws_prefix_len(t) >= start,
            ws_prefix_len(t) <= t.len(),
            ws_prefix_len(t.subrange(start as int, t.len() as int)) + start == ws_prefix_len(t),
        decreases end - start,
    {
        proof {
            let rest = t.subrange(start as int, t.len() as int);
            assert(rest[0] == cv@[start as int]);
            assert(rest.subrange(1, rest.len() as int) =~= t.subrange(
                start + 1,
                t.len() as int,
            ));
            lemma_ws_bounds(t.subrange(start + 1, t.len() as int));
        }
        start = start + 1;
    }
    proof {
        assert(ws_prefix_len(t.subrange(start as int, t.len() as int)) == 0) by {
            if start < end {
                assert(t.subrange(start as int, t.len() as int)[0] == cv@[start as int]);
            }
        }
        assert(ws_prefix_len(t) == start);
    }
    let mut r: Vec<char> = Vec::new();
    let mut i: usize = start;
    while i < end
        invariant
            start <= i <= end <= cv@.len(),
            r@ == cv@.subrange(start as int, i as int),
        decreases end - i,
    {
        r.push(cv[i]);
        proof {
            assert(r@ =~= cv@.subrange(start as int, i + 1 as int));
        }
        i = i + 1;
    }
    proof {
        assert(r@ =~= trimmed(cv@));
    }
    r
}

fn string_of_chars(cv: &Vec<char>, from: usize, to: usize) -> (r: String)
    requires
        from <= to <= cv@.len(),
    ensures
        r@ == cv@.subrange(from as int, to as int),
{
    let mut part: Vec<char> = Vec::new();
    let mut i: usize = from;
    while i < to
        invariant
            from <= i <= to <= cv@.len(),
            part@ == cv@.subrange(from as int, i as int),
        decreases to - i,
    {
        part.push(cv[i]);
        proof {
            assert(part@ =~= cv@.subrange(from as int, i + 1 as int));
        }
        i = i + 1;
    }
    chars_to_string(&part)
}

/// Relies on `String`'s `FromIterator<char>`: collecting characters
/// yields the string of exactly those characters, in order.
#[verifier::external_body]
fn chars_to_string(v: &Vec<char>) -> (r: String)
    ensures
        r@ == v@,
{
    v.iter().collect()
}

fn is_key_char_exec(c: char) -> (r: bool)
    ensures
        r == is_key_char(c),
{
    ('a' <= c && c <= 'z') || ('A' <= c && c <= 'Z') || ('0' <= c && c <= '9')
}

fn prefix_matches(t: &Vec<char>, live: bool) -> (r: bool)
    requires
        t@.len() >= 8,
    ensures
        live ==> r == (t@.subrange(0, 8) == "rs_live_"@),
        !live ==> r == (t@.subrange(0, 8) == "rs_test_"@),
{
    proof {
        reveal_strlit("rs_live_");
        reveal_strlit("rs_test_");
    }
    let m = if live {
        t[0] == 'r' && t[1] == 's' && t[2] == '_' && t[3] == 'l' && t[4] == 'i' && t[5] == 'v'
            && t[6] == 'e' && t[7] == '_'
    } else {
        t[0] == 'r' && t[1] == 's' && t[2] == '_' && t[3] == 't' && t[4] == 'e' && t[5] == 's'
            && t[6] == 't' && t[7] == '_'
    };
    proof {
        if live {
            if m {
                assert(t@.subrange(0, 8) =~= "rs_live_"@);
            } else {
                assert(t@.subrange(0, 8) != "rs_live_"@) by {
                    if t@.subrange(0, 8) == "rs_live_"@ {
                        assert(t@[0] == "rs_live_"@[0]);
                        assert(t@[1] == "rs_live_"@[1]);
                        assert(t@[2] == "rs_live_"@[2]);
                        assert(t@[3] == "rs_live_"@[3]);
                        assert(t@[4] == "rs_live_"@[4]);
                        assert(t@[5] == "rs_live_"@[5]);
                        assert(t@[6] == "rs_live_"@[6]);
                        assert(t@[7] == "rs_live_"@[7]);
                    }
                }
            }
        } else {
            if m {
                assert(t@.subrange(0, 8) =~= "rs_test_"@);
            } else {
                assert(t@.subrange(0, 8) != "rs_test_"@) by {
                    if t@.subrange(0, 8) == "rs_test_"@ {
                        assert(t@[0] == "rs_test_"@[0]);
                        assert(t@[1] == "rs_test_"@[1]);
                        assert(t@[2] == "rs_test_"@[2]);
                        assert(t@[3] == "rs_test_"@[3]);
                        assert(t@[4] == "rs_test_"@[4]);
                        assert(t@[5] == "rs_test_"@[5]);
                        assert(t@[6] == "rs_test_"@[6]);
                        assert(t@[7] == "rs_test_"@[7]);
                    }
                }
            }
        }
    }
    m
}

fn body_is_alnum(t: &Vec<char>) -> (r: bool)
    requires
        t@.len() >= 8,
    ensures
        r == (forall|i: int| 8 <= i < t@.len() ==> is_key_char(#[trigger] t@[i])),
{
    let mut i: usize = 8;
    while i < t.len()
        invariant
            8 <= i <= t@.len(),
            forall|q: int| 8 <= q < i ==> is_key_char(#[trigger] t@[q]),
        decreases t@.len() - i,
    {
        if !is_key_char_exec(t[i]) {
            return false;
        }
        i = i + 1;
    }
    true
}

impl AuthenticationError {
    /// An invalid-key error carrying the masked form of the key.
    pub fn invalid_api_key(api_key: &str) -> (r: Self)
        ensures
            r matches AuthenticationError::InvalidApiKey { masked_key } ==> masked_key@
                == masked_of(api_key@),
            r is InvalidApiKey,
    {
        let cv = collect_chars(api_key);
        let masked: String = if cv.len() > 10 {
            let mut m = string_of_chars(&cv, 0, 10);
            m.append("...");
            proof {
                assert(m@ =~= masked_of(api_key@));
            }
            m
        } else {
            let m = string_of_chars(&cv, 0, cv.len());
            proof {
                assert(m@ =~= masked_of(api_key@));
            }
            m
        };
        AuthenticationError::InvalidApiKey { masked_key: masked }
    }
}

/// Validate an API key and return its environment.
///
/// Returns `MissingApiKey` when no key, or an effectively empty key, is
/// supplied; `InvalidApiKey` (with the masked key) when the trimmed key
/// does not match the accepted format; and otherwise the environment the
/// prefix names.
pub fn validate_api_key(api_key: Option<&str>) -> (r: Result<Environment, AuthenticationError>)
    ensures
        api_key is None ==> (r matches Err(e) && e is MissingApiKey),
        api_key matches Some(k) ==> {
            let t = trimmed(k@);
            &&& t.len() == 0 ==> (r matches Err(e) && e is MissingApiKey)
            &&& (r == Result::<Environment, AuthenticationError>::Ok(Environment::Live)
                <==> key_matches(t, "rs_live_"@))
            &&& (r == Result::<Environment, AuthenticationError>::Ok(Environment::Test)
                <==> key_matches(t, "rs_test_"@))
            &&& (t.len() > 0 && !key_matches(t, "rs_live_"@) && !key_matches(t, "rs_test_"@))
                ==> (r matches Err(e) && (e matches AuthenticationError::InvalidApiKey {
                masked_key,
            } && masked_key@ == masked_of(t)))
        },
{
    let k = match api_key {
        Option::None => {
            return Result::Err(AuthenticationError::MissingApiKey);
        },
        Option::Some(k) => k,
    };
    let cv = collect_chars(k);
    let t = trim_chars(&cv);
    if t.len() == 0 {
        return Result::Err(AuthenticationError::MissingApiKey);
    }
    proof {
        reveal_strlit("rs_live_");
        reveal_strlit("rs_test_");
    }
    if t.len() < 24 {
        let masked = mask_trimmed(&t);
        return Result::Err(AuthenticationError::InvalidApiKey { masked_key: masked });
    }
    let live = prefix_matches(&t, true);
    let test = prefix_matches(&t, false);
    if !live && !test {
        let masked = mask_trimmed(&t);
        return Result::Err(AuthenticationError::InvalidApiKey { masked_key: masked });
    }
    if !body_is_alnum(&t) {
        let masked = mask_trimmed(&t);
        return Result::Err(AuthenticationError::InvalidApiKey { masked_key: masked });
    }
    proof {
        assert("rs_live_"@ != "rs_test_"@) by {
            assert("rs_live_"@[3] == 'l');
            assert("rs_test_"@[3] == 't');
        }
    }
    if live {
        Result::Ok(Environment::Live)
    } else {
        Result::Ok(Environment::Test)
    }
}

fn mask_trimmed(t: &Vec<char>) -> (r: String)
    ensures
        r@ == masked_of(t@),
{
    if t.len() > 10 {
        let mut m = string_of_chars(t, 0, 10);
        m.append("...");
        proof {
            assert(m@ =~= masked_of(t@));
        }
        m
    } else {
        let m = string_of_chars(t, 0, t.len());
        proof {
            assert(m@ =~= masked_of(t@));
        }
        m
    }
}

/// Mask an API key for safe logging: its eight-character prefix, four
/// asterisks, and (for longer keys) the last four characters.
pub fn mask_api_key(api_key: &str) -> (r: String)
    ensures
        api_key@.len() <= 12 ==> r@ == api_key@.subrange(
            0,
            if api_key@.len() <= 8 {
                api_key@.len() as int
            } else {
                8
            },
        ) + "****"@,
        api_key@.len() > 12 ==> r@ == api_key@.subrange(0, 8) + "****"@ + api_key@.subrange(
            api_key@.len() - 4,
            api_key@.len() as int,
        ),
{
    let cv = collect_chars(api_key);
    let n = cv.len();
    if n <= 12 {
        let cut = if n <= 8 {
            n
        } else {
            8
        };
        let mut m = string_of_chars(&cv, 0, cut);
        m.append("****");
        m
    } else {
        let mut m = string_of_chars(&cv, 0, 8);
        m.append("****");
        let suffix = string_of_chars(&cv, n - 4, n);
        m.append(suffix.as_str());
        m
    }
}

/// The authorization header value for API requests: `Bearer` and the key.
pub fn get_auth_header(api_key: &str) -> (r: String)
    ensures
        r@ == "Bearer "@ + api_key@,
{
    let mut r = String::from_str("Bearer ");
    r.append(api_key);
    r
}

/// A field-level input validation failure.
#[derive(Debug, Clone)]
pub struct ValidationError {
    /// Field that failed validation.
    pub field: String,
    /// What was wrong.
    pub message: String,
}

impl ValidationError {
    /// Create a validation error for a named field.
    pub fn new(field: &str, message: &str) -> (r: Self)
        ensures
            r.field@ == field@,
            r.message@ == message@,
    {
        ValidationError { field: field.to_owned(), message: message.to_owned() }
    }
}

} // verus!
