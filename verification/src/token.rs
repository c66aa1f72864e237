//! Credential extraction: decode a stored JWT (without verification) to
//! recover the account id, and synthesize the session cookie value.
//!
//! The surrounding I/O — locating and querying the local database — lives
//! in the application shell; this module holds every decision made on the
//! token text itself.

use vstd::prelude::*;
use crate::codec;

verus! {

/// The session credential derived from the locally stored token.
#[derive(Debug)]
pub struct TokenInfo {
    /// Cookie value, already URL-escaped: `"<userId>%3A%3A<jwt>"`.
    pub session_token: String,
    pub user_id: String,
}

/// Why a credential could not be produced. Each variant is terminal for
/// the refresh cycle that hit it; nothing is retried automatically.
#[derive(Debug)]
pub enum TokenError {
    /// The local database file does not exist (payload: the path tried).
    DatabaseNotFound(String),
    /// The database exists but could not be opened read-only.
    CannotOpen(String),
    /// The point lookup failed for a reason other than "no rows".
    QueryFailed(String),
    /// The lookup returned no row: nobody is logged in.
    TokenNotFound,
    /// The stored value is not a decodable JWT.
    InvalidJwt,
    /// The JWT payload has no string `sub` claim.
    MissingSubClaim,
}

/// Index of the first occurrence of `c` in `s`, or -1 when absent.
pub open spec fn find_char(s: Seq<char>, c: char) -> int
    decreases s.len(),
{
    if s.len() == 0 {
        -1
    } else if s[0] == c {
        0
    } else {
        let rest = find_char(s.drop_first(), c);
        if rest == -1 {
            -1
        } else {
            rest + 1
        }
    }
}

proof fn lemma_find_char_at(s: Seq<char>, c: char, i: int)
    requires
        0 <= i < s.len(),
        forall|j: int| 0 <= j < i ==> s[j] != c,
        s[i] == c,
    ensures
        find_char(s, c) == i,
    decreases i,
{
    if i > 0 {
        lemma_find_char_at(s.drop_first(), c, i - 1);
    }
}

proof fn lemma_find_char_none(s: Seq<char>, c: char)
    requires
        forall|j: int| 0 <= j < s.len() ==> s[j] != c,
    ensures
        find_char(s, c) == -1,
    decreases s.len(),
{
    if s.len() > 0 {
        lemma_find_char_none(s.drop_first(), c);
    }
}

/// First index of `c` in `s`, scanning forward.
fn find_char_idx(s: &str, c: char) -> (r: Option<usize>)
    ensures
        match r {
            Option::Some(i) => i < s@.len() && s@[i as int] == c && find_char(s@, c) == i as int,
            Option::None => find_char(s@, c) == -1,
        },
{
    let n = s.unicode_len();
    let mut i: usize = 0;
    while i < n
        invariant
            0 <= i <= n,
            n == s@.len(),
            forall|j: int| 0 <= j < i ==> s@[j] != c,
        decreases n - i,
    {
        if s.get_char(i) == c {
            proof {
                lemma_find_char_at(s@, c, i as int);
            }
            return Some(i);
        }
        i = i + 1;
    }
    proof {
        lemma_find_char_none(s@, c);
    }
    None
}

/// The JWT payload segment: the characters strictly between the first dot
/// and the next dot (or the end). `None` when the token has no dot at all,
/// i.e. fewer than two segments.
pub open spec fn jwt_payload(s: Seq<char>) -> Option<Seq<char>> {
    let d1 = find_char(s, '.');
    if d1 < 0 {
        Option::None
    } else {
        let rest = s.subrange(d1 + 1, s.len() as int);
        let d2 = find_char(rest, '.');
        if d2 < 0 {
            Option::Some(rest)
        } else {
            Option::Some(rest.subrange(0, d2))
        }
    }
}

/// The account id carried by a `sub` claim: the segment between the first
/// pipe and the next pipe (or the end), or the whole claim when it has no
/// pipe (the documented lenient fallback).
pub open spec fn pipe_user_id(sub: Seq<char>) -> Seq<char> {
    let p1 = find_char(sub, '|');
    if p1 < 0 {
        sub
    } else {
        let rest = sub.subrange(p1 + 1, sub.len() as int);
        let p2 = find_char(rest, '|');
        if p2 < 0 {
            rest
        } else {
            rest.subrange(0, p2)
        }
    }
}

/// What decoding a JWT yields: the user id, or the error of the step that
/// failed. The payload must base64url-decode, parse as JSON, and hold a
/// string `sub` claim.
pub open spec fn jwt_user_id(jwt: Seq<char>) -> Result<Seq<char>, TokenError> {
    match jwt_payload(jwt) {
        Option::None => Result::Err(TokenError::InvalidJwt),
        Option::Some(seg) => match codec::base64url_decoded(seg) {
            Option::None => Result::Err(TokenError::InvalidJwt),
            Option::Some(bytes) => match codec::json_str_field_of(bytes, "sub"@) {
                Option::None => Result::Err(TokenError::InvalidJwt),
                Option::Some(Option::None) => Result::Err(TokenError::MissingSubClaim),
                Option::Some(Option::Some(sub)) => Result::Ok(pipe_user_id(sub)),
            },
        },
    }
}

/// The segment of `s` between the first pipe and the next (or the end), or
/// all of `s` when it has no pipe.
fn second_pipe_segment(s: &str) -> (r: String)
    ensures
        r@ == pipe_user_id(s@),
{
    let n = s.unicode_len();
    match find_char_idx(s, '|') {
        Option::None => String::from_str(s),
        Option::Some(p1) => {
            let rest = s.substring_char(p1 + 1, n);
            match find_char_idx(rest, '|') {
                Option::None => String::from_str(rest),
                Option::Some(p2) => String::from_str(rest.substring_char(0, p2)),
            }
        },
    }
}

/// Decodes the JWT payload (without signature verification) and extracts
/// the account id from the `sub` claim, which is expected in the shape
/// `"<provider>|<userId>"`.
pub fn extract_user_id_from_jwt(jwt: &str) -> (r: Result<String, TokenError>)
    ensures
        match jwt_user_id(jwt@) {
            Result::Ok(uid) => r matches Result::Ok(u) && u@ == uid,
            Result::Err(e) => r matches Result::Err(a) && a == e,
        },
{
    let n = jwt.unicode_len();
    let d1 = match find_char_idx(jwt, '.') {
        Option::None => {
            return Result::Err(TokenError::InvalidJwt);
        },
        Option::Some(i) => i,
    };
    let rest = jwt.substring_char(d1 + 1, n);
    let seg = match find_char_idx(rest, '.') {
        Option::None => rest,
        Option::Some(j) => rest.substring_char(0, j),
    };
    assert(Option::Some(seg@) == jwt_payload(jwt@));
    let bytes = match codec::base64url_decode(seg) {
        Option::None => {
            return Result::Err(TokenError::InvalidJwt);
        },
        Option::Some(b) => b,
    };
    match codec::json_str_field(bytes.as_slice(), "sub") {
        Option::None => Result::Err(TokenError::InvalidJwt),
        Option::Some(Option::None) => Result::Err(TokenError::MissingSubClaim),
        Option::Some(Option::Some(sub)) => Result::Ok(second_pipe_segment(sub.as_str())),
    }
}

/// The session cookie value: user id and raw JWT joined by the literal
/// percent-encoded separator, ready to be sent verbatim.
pub fn session_token_value(user_id: &str, jwt: &str) -> (r: String)
    ensures
        r@ == user_id@ + "%3A%3A"@ + jwt@,
{
    let mut s = String::from_str(user_id);
    s.append("%3A%3A");
    s.append(jwt);
    proof {
        assert(s@ =~= user_id@ + "%3A%3A"@ + jwt@);
    }
    s
}

/// Derives the full session credential from the raw stored JWT.
pub fn token_info_from_jwt(jwt: &str) -> (r: Result<TokenInfo, TokenError>)
    ensures
        match jwt_user_id(jwt@) {
            Result::Ok(uid) => r matches Result::Ok(info) && info.user_id@ == uid
                && info.session_token@ == uid + "%3A%3A"@ + jwt@,
            Result::Err(e) => r matches Result::Err(a) && a == e,
        },
{
    match extract_user_id_from_jwt(jwt) {
        Result::Ok(uid) => {
            let session_token = session_token_value(uid.as_str(), jwt);
            Result::Ok(TokenInfo { session_token, user_id: uid })
        },
        Result::Err(e) => Result::Err(e),
    }
}

impl TokenError {
    /// The user-facing description of this error.
    pub fn message(&self) -> (r: String)
        ensures
            match self {
                TokenError::DatabaseNotFound(p) => r@ == "Cursor database not found at: "@ + p@,
                TokenError::CannotOpen(d) => r@ == "Cannot open database: "@ + d@,
                TokenError::QueryFailed(d) => r@ == "Query failed: "@ + d@,
                TokenError::TokenNotFound => r@
                    == "No auth token found in Cursor database. Are you logged in?"@,
                TokenError::InvalidJwt => r@ == "Auth token is not a valid JWT"@,
                TokenError::MissingSubClaim => r@ == "JWT missing 'sub' claim"@,
            },
    {
        match self {
            TokenError::DatabaseNotFound(p) => {
                let mut s = String::from_str("Cursor database not found at: ");
                s.append(p.as_str());
                s
            },
            TokenError::CannotOpen(d) => {
                let mut s = String::from_str("Cannot open database: ");
                s.append(d.as_str());
                s
            },
            TokenError::QueryFailed(d) => {
                let mut s = String::from_str("Query failed: ");
                s.append(d.as_str());
                s
            },
            TokenError::TokenNotFound => String::from_str(
                "No auth token found in Cursor database. Are you logged in?",
            ),
            TokenError::InvalidJwt => String::from_str("Auth token is not a valid JWT"),
            TokenError::MissingSubClaim => String::from_str("JWT missing 'sub' claim"),
        }
    }
}

} // verus!
