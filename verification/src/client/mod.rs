//! A session with a Mattermost server: its credentials, the cookies and
//! URLs of its requests, and the decisions taken on the answers to a login.

pub mod channel;
pub mod error;
pub mod post;
pub mod team;
pub mod user;

use vstd::prelude::*;
use vstd::string::StrSliceExecFns;
use vstd::string::StringExecFns;

use crate::outside::parse_url;
use crate::outside::parses_as_url;
use crate::text::has_prefix;
use crate::text::opt_text;
use crate::text::starts_with;
use crate::text::strip_prefixes;
use crate::text::trim;
use crate::text::trim_spec;
use crate::text::trim_start_matches;

verus! {

/// The status code the server answers a login with when it refuses the credentials.
pub const UNAUTHORIZED: u16 = 401;

/// The status code answered when a resource does not exist.
pub const NOT_FOUND: u16 = 404;

/// Credentials of a session with a Mattermost server. The HTTP transport
/// that sends requests with them is held next to this value by the
/// application.
#[derive(Debug, Clone)]
pub struct MattermostClient {
    pub base_url: String,
    pub token: String,
    user_id: String,
    csrf_token: String,
}

/// The minimal slice of a [`MattermostClient`] needed to reconstruct it
/// without logging in again.
#[derive(Debug, Clone)]
pub struct Session {
    pub base_url: String,
    pub token: String,
    pub user_id: String,
    pub csrf_token: String,
}

/// The four texts of a session, as sequences of characters.
pub struct SessionModel {
    pub base_url: Seq<char>,
    pub token: Seq<char>,
    pub user_id: Seq<char>,
    pub csrf_token: Seq<char>,
}

impl View for MattermostClient {
    type V = SessionModel;

    closed spec fn view(&self) -> SessionModel {
        SessionModel {
            base_url: self.base_url@,
            token: self.token@,
            user_id: self.user_id@,
            csrf_token: self.csrf_token@,
        }
    }
}

impl View for Session {
    type V = SessionModel;

    open spec fn view(&self) -> SessionModel {
        SessionModel {
            base_url: self.base_url@,
            token: self.token@,
            user_id: self.user_id@,
            csrf_token: self.csrf_token@,
        }
    }
}

/// Why a client could not be built.
#[derive(Debug)]
pub enum BuilderError {
    InvalidUrl,
    BuildError(reqwest::Error),
}

/// Why a login failed.
#[derive(Debug)]
pub enum LoginError {
    InvalidCredentials,
    RequestError(reqwest::Error),
    ResponseError(String),
    BuildError(BuilderError),
    CookieJarError(reqwest::header::ToStrError),
}

impl From<reqwest::Error> for LoginError {
    fn from(e: reqwest::Error) -> (r: Self) {
        LoginError::RequestError(e)
    }
}

impl vstd::std_specs::convert::FromSpecImpl<reqwest::Error> for LoginError {
    open spec fn obeys_from_spec() -> bool {
        true
    }

    open spec fn from_spec(e: reqwest::Error) -> LoginError {
        LoginError::RequestError(e)
    }
}

impl From<BuilderError> for LoginError {
    fn from(e: BuilderError) -> (r: Self) {
        LoginError::BuildError(e)
    }
}

impl vstd::std_specs::convert::FromSpecImpl<BuilderError> for LoginError {
    open spec fn obeys_from_spec() -> bool {
        true
    }

    open spec fn from_spec(e: BuilderError) -> LoginError {
        LoginError::BuildError(e)
    }
}

/// The session model with the four given texts.
pub open spec fn session_model(base_url: Seq<char>, token: Seq<char>, user_id: Seq<char>, csrf_token: Seq<char>) -> SessionModel {
    SessionModel { base_url, token, user_id, csrf_token }
}

impl MattermostClient {
    /// Builds a client from owned texts, checking that the base URL parses.
    fn from_parts(base_url: String, token: String, user_id: String, csrf_token: String) -> (r: Result<Self, BuilderError>)
        ensures
            r is Ok <==> parses_as_url(base_url@),
            r matches Ok(c) ==> c.base_url == base_url && c.token == token && c.user_id == user_id && c.csrf_token == csrf_token,
            r matches Err(e) ==> e is InvalidUrl,
    {
        match parse_url(base_url.as_str()) {
            Ok(()) => Ok(MattermostClient { base_url, token, user_id, csrf_token }),
            Err(_) => Err(BuilderError::InvalidUrl),
        }
    }

    /// A client for a session already logged in. Fails with `InvalidUrl`
    /// exactly when the base URL does not parse.
    pub fn new_with_token(base_url: &str, token: &str, user_id: &str, csrf_token: &str) -> (r: Result<Self, BuilderError>)
        ensures
            r is Ok <==> parses_as_url(base_url@),
            r matches Ok(c) ==> c@ == session_model(base_url@, token@, user_id@, csrf_token@),
            r matches Err(e) ==> e is InvalidUrl,
    {
        Self::from_parts(base_url.to_owned(), token.to_owned(), user_id.to_owned(), csrf_token.to_owned())
    }

    /// The id of the logged-in user.
    pub fn get_user_id(&self) -> (r: &str)
        ensures
            r@ == self@.user_id,
    {
        self.user_id.as_str()
    }

    /// The CSRF token of the session.
    pub fn get_csrf_token(&self) -> (r: &str)
        ensures
            r@ == self@.csrf_token,
    {
        self.csrf_token.as_str()
    }

    /// The authentication token of the session.
    pub fn get_token(&self) -> (r: &str)
        ensures
            r@ == self@.token,
    {
        self.token.as_str()
    }

    /// The cookies every request of the session carries: the authentication
    /// token, the user id and the CSRF token, in that order.
    pub fn session_cookies(&self) -> (r: Vec<String>)
        ensures
            r@.len() == 3,
            r@[0]@ == "MMAUTHTOKEN="@ + self@.token,
            r@[1]@ == "MMUSERID="@ + self@.user_id,
            r@[2]@ == "MMCSRF="@ + self@.csrf_token,
    {
        let mut a = "MMAUTHTOKEN=".to_owned();
        a.append(self.token.as_str());
        let mut b = "MMUSERID=".to_owned();
        b.append(self.user_id.as_str());
        let mut c = "MMCSRF=".to_owned();
        c.append(self.csrf_token.as_str());
        let mut v: Vec<String> = Vec::new();
        v.push(a);
        v.push(b);
        v.push(c);
        v
    }

    /// The address a login is posted to.
    pub fn login_url(base_url: &str) -> (r: String)
        ensures
            r@ == base_url@ + "/api/v4/users/login"@,
    {
        let mut s = base_url.to_owned();
        s.append("/api/v4/users/login");
        s
    }
}

impl<'a> From<&'a MattermostClient> for Session {
    fn from(client: &'a MattermostClient) -> (r: Self)
        ensures
            r@ == client@,
    {
        Session {
            base_url: client.base_url.clone(),
            token: client.token.clone(),
            user_id: client.user_id.clone(),
            csrf_token: client.csrf_token.clone(),
        }
    }
}

impl<'a> vstd::std_specs::convert::FromSpecImpl<&'a MattermostClient> for Session {
    open spec fn obeys_from_spec() -> bool {
        true
    }

    open spec fn from_spec(client: &'a MattermostClient) -> Session {
        session_of(client)
    }
}

/// The session whose texts are those of `client`.
pub closed spec fn session_of(client: &MattermostClient) -> Session {
    Session {
        base_url: client.base_url,
        token: client.token,
        user_id: client.user_id,
        csrf_token: client.csrf_token,
    }
}

/// The client a session rebuilds, or `InvalidUrl` where its base URL does
/// not parse.
pub closed spec fn client_of(session: Session) -> Result<MattermostClient, BuilderError> {
    if parses_as_url(session.base_url@) {
        Ok(
            MattermostClient {
                base_url: session.base_url,
                token: session.token,
                user_id: session.user_id,
                csrf_token: session.csrf_token,
            },
        )
    } else {
        Err(BuilderError::InvalidUrl)
    }
}

/// A client saved as a session and rebuilt from it has the same texts, as
/// long as its base URL parses (as that of every client built by
/// `new_with_token` or a login does).
pub proof fn law_session_round_trip(client: MattermostClient)
    requires
        parses_as_url(client@.base_url),
    ensures
        session_of(&client)@ == client@,
        client_of(session_of(&client)) matches Ok(c) && c@ == client@,
{
}

/// A saved session rebuilds a client exactly when its base URL parses; the
/// client has the session's texts and is saved again as the same session.
pub proof fn law_session_rebuilds_client(session: Session)
    ensures
        client_of(session) is Ok <==> parses_as_url(session.base_url@),
        client_of(session) matches Ok(c) ==> c@ == session@ && session_of(&c) == session,
        client_of(session) matches Err(e) ==> e is InvalidUrl,
{
}

impl TryFrom<Session> for MattermostClient {
    type Error = BuilderError;

    fn try_from(session: Session) -> (r: Result<Self, BuilderError>)
        ensures
            r is Ok <==> parses_as_url(session.base_url@),
            r matches Ok(c) ==> c@ == session@,
            r matches Err(e) ==> e is InvalidUrl,
    {
        Self::from_parts(session.base_url, session.token, session.user_id, session.csrf_token)
    }
}

impl vstd::std_specs::convert::TryFromSpecImpl<Session> for MattermostClient {
    open spec fn obeys_try_from_spec() -> bool {
        true
    }

    open spec fn try_from_spec(session: Session) -> Result<MattermostClient, BuilderError> {
        client_of(session)
    }
}

/// The position of the first `';'` in `s`, or its length where it has none.
pub open spec fn first_semicolon(s: Seq<char>) -> nat
    decreases s.len(),
{
    if s.len() == 0 {
        0
    } else if s[0] == ';' {
        0
    } else {
        1 + first_semicolon(s.drop_first())
    }
}

/// The value of the `MMCSRF` cookie in one `name=value` pair of a cookie
/// header, if the pair, without surrounding white space, is that cookie.
pub open spec fn csrf_in_pair(pair: Seq<char>) -> Option<Seq<char>> {
    if has_prefix(trim_spec(pair), "MMCSRF="@) {
        Some(strip_prefixes(trim_spec(pair), "MMCSRF="@))
    } else {
        None
    }
}

/// The value of the first `MMCSRF` cookie in a `;`-separated cookie header.
pub open spec fn csrf_in_header(h: Seq<char>) -> Option<Seq<char>>
    decreases h.len(),
{
    let k = first_semicolon(h);
    let pair = h.subrange(0, k as int);
    if csrf_in_pair(pair) is Some {
        csrf_in_pair(pair)
    } else if k >= h.len() {
        None
    } else {
        csrf_in_header(h.subrange(k as int + 1, h.len() as int))
    }
}

proof fn lemma_first_semicolon_at(s: Seq<char>, m: int)
    requires
        0 <= m <= s.len(),
        forall|q: int| 0 <= q < m ==> s[q] != ';',
        m == s.len() || s[m] == ';',
    ensures
        first_semicolon(s) == m,
    decreases m,
{
    if m > 0 {
        let t = s.drop_first();
        assert forall|q: int| 0 <= q < m - 1 implies t[q] != ';' by {
            assert(t[q] == s[q + 1]);
        }
        if m < s.len() {
            assert(t[m - 1] == s[m]);
        }
        lemma_first_semicolon_at(t, m - 1);
    }
}

/// A cookie header is read pair by pair, from the first: where its first
/// pair (up to the first `;`) is, once trimmed, an `MMCSRF=` cookie, its
/// value is the answer, whatever follows; otherwise the answer is that of
/// the rest of the header after the `;`.
pub proof fn law_csrf_first_pair_decides(pair: Seq<char>, rest: Seq<char>)
    requires
        forall|i: int| 0 <= i < pair.len() ==> #[trigger] pair[i] != ';',
    ensures
        has_prefix(trim_spec(pair), "MMCSRF="@) ==> csrf_in_header(pair + ";"@ + rest) == Some(
            strip_prefixes(trim_spec(pair), "MMCSRF="@),
        ) && csrf_in_header(pair) == Some(strip_prefixes(trim_spec(pair), "MMCSRF="@)),
        !has_prefix(trim_spec(pair), "MMCSRF="@) ==> csrf_in_header(pair + ";"@ + rest) == csrf_in_header(rest)
            && csrf_in_header(pair) is None,
{
    reveal_strlit(";");
    let h = pair + ";"@ + rest;
    let m = pair.len() as int;
    assert forall|q: int| 0 <= q < m implies h[q] != ';' by {
        assert(h[q] == pair[q]);
    }
    assert(h[m] == ';');
    lemma_first_semicolon_at(h, m);
    assert(h.subrange(0, m) =~= pair);
    assert(h.subrange(m + 1, h.len() as int) =~= rest);
    lemma_first_semicolon_at(pair, m);
    assert(pair.subrange(0, m) =~= pair);
}

/// Whether the value of an `MMCSRF` cookie can be read from one pair of a
/// cookie header, and which.
fn csrf_from_pair(pair: &str) -> (r: Option<String>)
    ensures
        r matches Some(v) ==> csrf_in_pair(pair@) == Some(v@),
        r is None ==> csrf_in_pair(pair@) is None,
{
    let t = trim(pair);
    if starts_with(t.as_str(), "MMCSRF=") {
        Some(trim_start_matches(t.as_str(), "MMCSRF="))
    } else {
        None
    }
}

/// The value of the first `MMCSRF` cookie in a cookie header such as
/// `"a=1; MMCSRF=xyz"`: the header is split at each `;`, and the first pair
/// that starts with `MMCSRF=` once trimmed gives its text after that prefix.
pub fn csrf_from_cookie_header(header: &str) -> (r: Option<String>)
    ensures
        r matches Some(v) ==> csrf_in_header(header@) == Some(v@),
        r is None ==> csrf_in_header(header@) is None,
{
    let n = header.unicode_len();
    let mut start: usize = 0;
    let mut i: usize = 0;
    assert(header@.subrange(0, n as int) =~= header@);
    while i < n
        invariant
            n == header@.len(),
            start <= i <= n,
            csrf_in_header(header@) == csrf_in_header(header@.subrange(start as int, n as int)),
            forall|q: int| start <= q < i ==> header@[q] != ';',
        decreases n - i,
    {
        if header.get_char(i) == ';' {
            let ghost rest = header@.subrange(start as int, n as int);
            proof {
                assert forall|q: int| 0 <= q < i - start implies rest[q] != ';' by {
                    assert(rest[q] == header@[start + q]);
                }
                assert(rest[i - start] == header@[i as int]);
                lemma_first_semicolon_at(rest, (i - start) as int);
                assert(rest.subrange(0, (i - start) as int) =~= header@.subrange(start as int, i as int));
                assert(rest.subrange((i - start) + 1, rest.len() as int) =~= header@.subrange(i + 1, n as int));
            }
            let pair = header.substring_char(start, i);
            let found = csrf_from_pair(pair);
            if found.is_some() {
                return found;
            }
            start = i + 1;
        }
        i = i + 1;
    }
    let ghost rest = header@.subrange(start as int, n as int);
    proof {
        assert forall|q: int| 0 <= q < n - start implies rest[q] != ';' by {
            assert(rest[q] == header@[start + q]);
        }
        lemma_first_semicolon_at(rest, (n - start) as int);
        assert(rest.subrange(0, (n - start) as int) =~= rest);
    }
    let pair = header.substring_char(start, n);
    csrf_from_pair(pair)
}

/// Whether an HTTP status code reports success (200 to 299).
pub open spec fn is_success_status(code: u16) -> bool {
    200 <= code <= 299
}

/// Whether an HTTP status code reports success (`StatusCode::is_success`).
pub fn status_is_success(code: u16) -> (r: bool)
    ensures
        r == is_success_status(code),
{
    200 <= code && code <= 299
}

/// What is done with the server's answer to a request.
#[derive(Debug, Clone, Copy, PartialEq, Eq)]
pub enum Reply {
    /// The status reports success: the body is read.
    Decode,
    /// The status reports a failure: the request fails with this code.
    Refuse(u16),
}

/// What is done with an answer of status `status`: its body is read where
/// the status reports success; otherwise the request fails with the code.
pub fn reply_for_status(status: u16) -> (r: Reply)
    ensures
        is_success_status(status) ==> r == Reply::Decode,
        !is_success_status(status) ==> r == Reply::Refuse(status),
{
    if status_is_success(status) {
        Reply::Decode
    } else {
        Reply::Refuse(status)
    }
}

/// The body of a login request.
#[derive(Debug, Clone)]
pub struct LoginRequest {
    pub login_id: String,
    pub password: String,
    pub device_id: String,
    pub token: String,
}

/// The login request for a user name (or email) and password, with an empty
/// device id and an empty MFA token.
pub fn login_request(username: String, password: String) -> (r: LoginRequest)
    ensures
        r.login_id == username,
        r.password == password,
        r.device_id@ == Seq::<char>::empty(),
        r.token@ == Seq::<char>::empty(),
{
    LoginRequest { login_id: username, password, device_id: String::new(), token: String::new() }
}

/// The error a login ends with when the server did not answer with success:
/// `InvalidCredentials` for 401, otherwise the text of the answer, or
/// `"Unknown error"` where it could not be read.
pub fn login_rejected(status: u16, body: Option<String>) -> (e: LoginError)
    requires
        !is_success_status(status),
    ensures
        status == UNAUTHORIZED ==> e is InvalidCredentials,
        status != UNAUTHORIZED ==> (e matches LoginError::ResponseError(t) && t@ == match body {
            Some(b) => b@,
            None => "Unknown error"@,
        }),
{
    if status == UNAUTHORIZED {
        LoginError::InvalidCredentials
    } else {
        match body {
            Some(b) => LoginError::ResponseError(b),
            None => LoginError::ResponseError("Unknown error".to_owned()),
        }
    }
}

/// What a successful login answer gives, from its `Token` header, the id of
/// the user in its body and the cookie header the server set for the base
/// URL (`None` where there is none or it is not visible ASCII).
pub open spec fn login_accepted_spec(
    base_url: Seq<char>,
    token: Option<Seq<char>>,
    user_id: Seq<char>,
    cookie_header: Option<Seq<char>>,
) -> Result<SessionModel, Seq<char>> {
    match token {
        None => Err("Token not found in response headers"@),
        Some(t) => if !parses_as_url(base_url) {
            Err("Invalid base URL"@)
        } else {
            match cookie_header {
                None => Err("MMCSRF token not found in cookies"@),
                Some(h) => match csrf_in_header(h) {
                    None => Err("MMCSRF token not found in cookies"@),
                    Some(csrf) => Ok(session_model(base_url, t, user_id, csrf)),
                },
            }
        }
    }
}

/// The client a successful login answer yields, or the `ResponseError` it
/// ends with; see `login_accepted_spec`.
pub fn login_accepted(base_url: &str, token: Option<String>, user_id: &str, cookie_header: Option<String>) -> (r: Result<MattermostClient, LoginError>)
    ensures
        match login_accepted_spec(base_url@, opt_text(token), user_id@, opt_text(cookie_header)) {
            Ok(m) => r matches Ok(c) && c@ == m,
            Err(msg) => r matches Err(LoginError::ResponseError(t)) && t@ == msg,
        },
{
    match token {
        None => Err(LoginError::ResponseError("Token not found in response headers".to_owned())),
        Some(t) => {
            match parse_url(base_url) {
                Err(_) => Err(LoginError::ResponseError("Invalid base URL".to_owned())),
                Ok(()) => {
                    let csrf = match cookie_header {
                        None => None,
                        Some(h) => csrf_from_cookie_header(h.as_str()),
                    };
                    match csrf {
                        None => Err(LoginError::ResponseError("MMCSRF token not found in cookies".to_owned())),
                        Some(c) => {
                            match MattermostClient::new_with_token(base_url, t.as_str(), user_id, c.as_str()) {
                                Ok(client) => Ok(client),
                                Err(e) => Err(LoginError::BuildError(e)),
                            }
                        },
                    }
                },
            }
        },
    }
}

} // verus!
