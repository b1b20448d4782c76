//! Deriving a session: reading the identity token out of the token endpoint's
//! answer, and deciding between using it, refreshing the credential, and failing.
use vstd::prelude::*;

use crate::error::DownloaderError;
use crate::text::{chars_of, push_all, string_of, sub_chars};

verus! {

/// The text that introduces the token in the token endpoint's answer.
pub open spec fn token_marker() -> Seq<char> {
    seq!['"', 't', 'o', 'k', 'e', 'n', '"', ':', '"']
}

/// Whether `pat` occurs in `s` at index `i`.
pub open spec fn occurs_at(s: Seq<char>, pat: Seq<char>, i: int) -> bool {
    0 <= i && i + pat.len() <= s.len() && s.subrange(i, i + pat.len()) == pat
}

/// The first index at or after `k` where `pat` occurs in `s`, or -1.
pub open spec fn find_from(s: Seq<char>, pat: Seq<char>, k: int) -> int
    decreases s.len() + 1 - k,
{
    if k < 0 || k + pat.len() > s.len() {
        -1
    } else if occurs_at(s, pat, k) {
        k
    } else {
        find_from(s, pat, k + 1)
    }
}

pub open spec fn is_hex_lower(c: char) -> bool {
    ('0' <= c && c <= '9') || ('a' <= c && c <= 'f')
}

/// Why no token could be read.
#[derive(Debug, Clone, Copy, PartialEq, Eq)]
pub enum TokenError {
    /// The answer holds no `"token":"` at all.
    NoMatch,
    /// The token after `"token":"` is empty, unterminated, or not lower-case hex.
    MalformedField,
}

/// The token that starts at index `i`: `"token":"` there, then one or more
/// lower-case hex digits up to the next `"`.
pub open spec fn token_at(body: Seq<char>, i: int) -> Option<Seq<char>> {
    if occurs_at(body, token_marker(), i) {
        let rest = body.subrange(i + token_marker().len(), body.len() as int);
        let j = find_from(rest, seq!['"'], 0);
        if j > 0 && (forall|k: int| 0 <= k < j ==> is_hex_lower(#[trigger] rest[k])) {
            Some(rest.subrange(0, j))
        } else {
            None
        }
    } else {
        None
    }
}

/// The first token that starts at or after index `k`.
pub open spec fn token_search(body: Seq<char>, k: int) -> Option<Seq<char>>
    decreases body.len() + 1 - k,
{
    if k < 0 || k > body.len() {
        None
    } else {
        match token_at(body, k) {
            Some(t) => Some(t),
            None => token_search(body, k + 1),
        }
    }
}

/// The token that the answer of the token endpoint carries: the first
/// `"token":"` followed by lower-case hex digits and a closing `"`.
/// `NoMatch` where no `"token":"` occurs, `MalformedField` where none is so followed.
pub open spec fn token_spec(body: Seq<char>) -> Result<Seq<char>, TokenError> {
    if find_from(body, token_marker(), 0) < 0 {
        Err(TokenError::NoMatch)
    } else {
        match token_search(body, 0) {
            Some(t) => Ok(t),
            None => Err(TokenError::MalformedField),
        }
    }
}

fn occurs_at_exec(s: &Vec<char>, pat: &Vec<char>, i: usize) -> (r: bool)
    requires
        i + pat.len() <= s.len(),
    ensures
        r == occurs_at(s@, pat@, i as int),
{
    let mut k: usize = 0;
    while k < pat.len()
        invariant
            k <= pat.len(),
            i + pat.len() <= s.len(),
            forall|m: int| 0 <= m < k ==> s@[i + m] == pat@[m],
        decreases pat.len() - k,
    {
        if s[i + k] != pat[k] {
            assert(s@.subrange(i as int, i + pat.len())[k as int] != pat@[k as int]);
            return false;
        }
        k = k + 1;
    }
    assert(s@.subrange(i as int, i + pat.len()) =~= pat@);
    true
}

proof fn lemma_find_occurs(s: Seq<char>, pat: Seq<char>, k: int)
    ensures
        find_from(s, pat, k) >= 0 ==> occurs_at(s, pat, find_from(s, pat, k)),
        find_from(s, pat, k) >= k || find_from(s, pat, k) == -1,
    decreases s.len() + 1 - k,
{
    if !(k < 0 || k + pat.len() > s.len()) && !occurs_at(s, pat, k) {
        lemma_find_occurs(s, pat, k + 1);
    }
}

/// Whether the first `j` characters are lower-case hex digits.
fn all_hex_lower(v: &Vec<char>, j: usize) -> (r: bool)
    requires
        j <= v.len(),
    ensures
        r == (forall|k: int| 0 <= k < j ==> is_hex_lower(#[trigger] v@[k])),
{
    let mut k: usize = 0;
    while k < j
        invariant
            k <= j,
            j <= v.len(),
            forall|m: int| 0 <= m < k ==> is_hex_lower(#[trigger] v@[m]),
        decreases j - k,
    {
        let c = v[k];
        if !(('0' <= c && c <= '9') || ('a' <= c && c <= 'f')) {
            assert(!is_hex_lower(v@[k as int]));
            return false;
        }
        k = k + 1;
    }
    true
}

/// The first index where `pat` occurs in `s`.
fn find_exec(s: &Vec<char>, pat: &Vec<char>) -> (r: Option<usize>)
    ensures
        match r {
            Some(i) => find_from(s@, pat@, 0) == i as int,
            None => find_from(s@, pat@, 0) == -1,
        },
{
    let mut i: usize = 0;
    while i <= s.len() && pat.len() <= s.len() - i
        invariant
            find_from(s@, pat@, 0) == find_from(s@, pat@, i as int),
        decreases s.len() + 1 - i,
    {
        if occurs_at_exec(s, pat, i) {
            return Some(i);
        }
        if pat.len() == 0 {
            assert(s@.subrange(i as int, i as int) =~= pat@);
        }
        i = i + 1;
    }
    None
}

fn token_at_exec(s: &Vec<char>, marker: &Vec<char>, i: usize) -> (r: Option<Vec<char>>)
    requires
        marker@ == token_marker(),
    ensures
        match r {
            Some(t) => token_at(s@, i as int) == Some(t@),
            None => token_at(s@, i as int) is None,
        },
{
    if i > s.len() || marker.len() > s.len() - i {
        return None;
    }
    if !occurs_at_exec(s, marker, i) {
        return None;
    }
    let rest = sub_chars(s, i + marker.len(), s.len());
    let quote = vec!['"'];
    assert(quote@ =~= seq!['"']);
    let j = match find_exec(&rest, &quote) {
        Some(j) => j,
        None => return None,
    };
    if j == 0 {
        return None;
    }
    proof {
        lemma_find_occurs(rest@, quote@, 0);
    }
    if !all_hex_lower(&rest, j) {
        return None;
    }
    Some(sub_chars(&rest, 0, j))
}

/// Reads the session token out of the token endpoint's answer.
pub fn extract_sso_token(body: &str) -> (r: Result<String, TokenError>)
    ensures
        match r {
            Ok(t) => token_spec(body@) == Ok::<Seq<char>, TokenError>(t@),
            Err(e) => token_spec(body@) == Err::<Seq<char>, TokenError>(e),
        },
{
    let s = chars_of(body);
    let marker = vec!['"', 't', 'o', 'k', 'e', 'n', '"', ':', '"'];
    assert(marker@ =~= token_marker());
    if find_exec(&s, &marker).is_none() {
        return Err(TokenError::NoMatch);
    }
    let mut i: usize = 0;
    while i < s.len()
        invariant
            i <= s.len(),
            marker@ == token_marker(),
            s@ == body@,
            find_from(s@, token_marker(), 0) >= 0,
            token_search(s@, 0) == token_search(s@, i as int),
        decreases s.len() - i,
    {
        if let Some(t) = token_at_exec(&s, &marker, i) {
            return Ok(string_of(&t));
        }
        i = i + 1;
    }
    assert(token_at(s@, i as int) is None);
    assert(token_search(s@, i + 1) is None);
    Err(TokenError::MalformedField)
}

/// What to do after asking for a token.
#[derive(Debug, Clone, PartialEq, Eq)]
pub enum TokenStep {
    /// Exchange this token for a session on the target.
    Exchange(String),
    /// Refresh the identity credential and ask again.
    Refresh,
    /// Give up.
    Fail(DownloaderError),
}

/// The step when no token could be had: refresh once, then fail.
pub open spec fn fallback_step(refreshed: bool) -> TokenStep {
    if refreshed {
        TokenStep::Fail(DownloaderError::Authentication)
    } else {
        TokenStep::Refresh
    }
}

/// Decides what follows a token request: use the token, refresh the
/// credential once, or fail with `Authentication` after a refresh.
pub fn token_step(answer: Option<&str>, refreshed: bool) -> (r: TokenStep)
    ensures
        match answer {
            Some(b) => match token_spec(b@) {
                Ok(t) => r is Exchange && r->Exchange_0@ == t,
                Err(_) => r == fallback_step(refreshed),
            },
            None => r == fallback_step(refreshed),
        },
{
    if let Some(b) = answer {
        if let Ok(t) = extract_sso_token(b) {
            return TokenStep::Exchange(t);
        }
    }
    if refreshed {
        TokenStep::Fail(DownloaderError::Authentication)
    } else {
        TokenStep::Refresh
    }
}

/// The path of the file that keeps a refreshed credential: the jar's path with
/// `.current` appended.
pub fn current_cookies_path(cookies_file: &str) -> (r: String)
    ensures
        r@ == cookies_file@ + ".current"@,
{
    let mut out = chars_of(cookies_file);
    let suffix = chars_of(".current");
    push_all(&mut out, &suffix);
    string_of(&out)
}

} // verus!
