//! The logged-in agent: sessions, their refresh, and how its XRPC requests are addressed and
//! authorized.
use http::header::{HeaderValue, InvalidHeaderValue};
use vstd::prelude::*;
use vstd::utf8::encode_utf8;

use crate::identifiers::{handle_error, is_valid_handle, parse_handle};
use crate::strings::{concat, concat3, decimal, decimal_string, ends_with, is_suffix, str_eq};
use crate::xrpc::{query_of, query_string, with_query, xrpc_url, xrpc_url_spec, PublicAtAgent, QueryParam};

verus! {

#[verifier::external_type_specification]
#[verifier::external_body]
pub struct ExHeaderValue(HeaderValue);

#[verifier::external_type_specification]
#[verifier::external_body]
pub struct ExInvalidHeaderValue(InvalidHeaderValue);

/// A byte that may stand in an HTTP header value: visible ASCII, a space, a tab, or any byte
/// from 0x80 on.
pub open spec fn is_header_byte(b: u8) -> bool {
    (b >= 32 && b != 127) || b == 9
}

/// Every UTF-8 byte of `s` may stand in a header value.
pub open spec fn is_header_text(s: Seq<char>) -> bool {
    forall|i: int| 0 <= i < encode_utf8(s).len() ==> is_header_byte(#[trigger] encode_utf8(s)[i])
}

/// The header value that `http::HeaderValue::from_str` makes of the text `s`.
pub uninterp spec fn header_value_of(s: Seq<char>) -> HeaderValue;

/// `http::HeaderValue::from_str`: succeeds exactly where every byte of `s` is valid in a header
/// value (`b >= 32 && b != 127 || b == b'\t'`), and then gives the value made of `s`, which
/// depends on `s` alone.
#[verifier::external_body]
fn header_value_from_str(s: &str) -> (r: Result<HeaderValue, InvalidHeaderValue>)
    ensures
        r is Ok <==> is_header_text(s@),
        r matches Ok(v) ==> v == header_value_of(s@),
{
    HeaderValue::from_str(s)
}

/// What goes wrong in the agent's own decisions.
pub enum AgentError {
    /// A header value held a byte that HTTP refuses.
    InvalidHeaderValue,
    /// The PDS refused to refresh the session, with this `error`.
    RefreshRejected(String),
    /// The PDS answered 400 without an `error` field.
    MissingErrorField,
    /// The answer to a refresh was not a session; the reason.
    InvalidBody(String),
}

/// An error that an XRPC service reports.
pub struct AgentRequestError {
    pub code: u16,
    pub error: String,
    pub message: String,
}

/// `code:{code},error:{error},message:{message}`.
pub open spec fn request_error_text(code: u16, error: Seq<char>, message: Seq<char>) -> Seq<char> {
    "code:"@ + decimal(code as nat) + ",error:"@ + error + ",message:"@ + message
}

impl AgentRequestError {
    /// The error as `Display` writes it: `code:{code},error:{error},message:{message}`.
    pub fn to_string(&self) -> (r: String)
        ensures
            r@ == request_error_text(self.code, self.error@, self.message@),
    {
        let mut r = "code:".to_owned();
        let code = decimal_string(self.code as u64);
        r.append(code.as_str());
        r.append(",error:");
        r.append(self.error.as_str());
        r.append(",message:");
        r.append(self.message.as_str());
        r
    }
}

/// Why no agent could be had for an account.
pub enum GetAgentError {
    /// A header value held a byte that HTTP refuses.
    InvalidHeaderValue,
    /// The HTTP client failed; its message.
    ReqwestError(String),
    /// The Bluesky SDK failed; its message.
    BskySdkError(String),
}

/// The HTTP method of an XRPC call: queries are GETs, procedures POSTs.
#[derive(Clone, Copy)]
pub enum Method {
    Get,
    Post,
}

/// What an XRPC call carries: query parameters, or an input body.
pub enum XrpcRequestData<D> {
    Parameters(D),
    Input(D),
}

/// An XRPC call: its method, the NSID of the method called, and what it carries, if anything.
pub struct XrpcRequest<D> {
    pub method: Method,
    pub nsid: &'static str,
    pub data: Option<XrpcRequestData<D>>,
}

/// `Bearer {token}`.
pub open spec fn bearer_text(token: Seq<char>) -> Seq<char> {
    "Bearer "@ + token
}

/// The `authorization` header for `token`: `Bearer {token}`; refused where the token holds a
/// byte that HTTP refuses in a header.
pub fn bearer_authorization(token: &str) -> (r: Result<HeaderValue, AgentError>)
    ensures
        r is Ok <==> is_header_text(bearer_text(token@)),
        r matches Ok(v) ==> v == header_value_of(bearer_text(token@)),
        r matches Err(e) ==> e is InvalidHeaderValue,
{
    let text = concat("Bearer ", token);
    match header_value_from_str(text.as_str()) {
        Ok(v) => Ok(v),
        Err(_) => Err(AgentError::InvalidHeaderValue),
    }
}

/// A service that a PDS proxies requests to.
pub struct ProxyHeader {
    pub host: String,
    pub service_type: String,
}

/// `did:web:{host}#{service_type}`.
pub open spec fn proxy_text(host: Seq<char>, service_type: Seq<char>) -> Seq<char> {
    "did:web:"@ + host + "#"@ + service_type
}

impl ProxyHeader {
    /// The Bluesky chat service: `api.bsky.chat`, of type `bsky_chat`.
    pub fn bsky_chat() -> (r: ProxyHeader)
        ensures
            r.host@ == "api.bsky.chat"@,
            r.service_type@ == "bsky_chat"@,
    {
        ProxyHeader { host: "api.bsky.chat".to_owned(), service_type: "bsky_chat".to_owned() }
    }

    /// The value of the `atproto-proxy` header: `did:web:{host}#{service_type}`.
    pub fn header_value(&self) -> (r: String)
        ensures
            r@ == proxy_text(self.host@, self.service_type@),
    {
        let mut r = concat3("did:web:", self.host.as_str(), "#");
        r.append(self.service_type.as_str());
        r
    }
}

/// The handles that Bluesky's own PDS serves end with `.bsky.social`.
pub open spec fn is_official_handle(handle: Seq<char>) -> bool {
    is_suffix(handle, ".bsky.social"@)
}

/// Whether the account of `handle` lives on Bluesky's own PDS.
pub fn is_official_pds(handle: &str) -> (r: bool)
    ensures
        r == is_official_handle(handle@),
{
    ends_with(handle, ".bsky.social")
}

/// Where an XRPC request on an account's behalf goes, the `atproto-proxy` header it carries, if
/// any, and its `authorization` header.
pub struct RequestPlan {
    pub url: String,
    pub proxy: Option<String>,
    pub authorization: HeaderValue,
}

/// The host of a request: the proxied service itself for accounts on Bluesky's own PDS,
/// otherwise the account's PDS, which is named by its handle.
pub open spec fn request_host(handle: Seq<char>, proxy: Option<&ProxyHeader>) -> Seq<char> {
    match proxy {
        Some(p) => if is_official_handle(handle) {
            p.host@
        } else {
            handle
        },
        None => handle,
    }
}

/// The `atproto-proxy` header of a request: only where a service is named and the account is
/// not on Bluesky's own PDS.
pub open spec fn request_proxy(handle: Seq<char>, proxy: Option<&ProxyHeader>) -> Option<Seq<char>> {
    match proxy {
        Some(p) => if is_official_handle(handle) {
            None
        } else {
            Some(proxy_text(p.host@, p.service_type@))
        },
        None => None,
    }
}

/// The proxy header of a plan, as text.
pub open spec fn plan_proxy(plan: RequestPlan) -> Option<Seq<char>> {
    match plan.proxy {
        Some(v) => Some(v@),
        None => None,
    }
}

/// `handle` ends with `.bsky.social`: the account lives on Bluesky's own PDS.
pub open spec fn on_bluesky_pds(handle: Seq<char>) -> bool {
    handle.len() >= 12 && handle.subrange(handle.len() - 12, handle.len() as int) == ".bsky.social"@
}

/// `url`, followed by `?` and the query string of the parameters where there are parameters.
pub open spec fn with_params(url: Seq<char>, params: Option<&Vec<QueryParam>>) -> Seq<char> {
    match params {
        Some(ps) => url + "?"@ + query_of(ps@),
        None => url,
    }
}

/// `https://{host}/xrpc/{nsid}`, written out.
pub open spec fn xrpc_address(host: Seq<char>, nsid: Seq<char>) -> Seq<char> {
    "https://"@ + host + "/xrpc/"@ + nsid
}

/// Where a request on behalf of the account of `handle` goes, and the proxy header it carries:
/// without a proxy service, to the account's own PDS (named by its handle) and without a
/// header, whatever the handle; with a proxy service, to that service itself and without a
/// header where the account lives on Bluesky's PDS, and otherwise to the account's own PDS with
/// the header `did:web:{service host}#{service type}`.
pub proof fn lemma_request_routing(handle: Seq<char>, nsid: Seq<char>, proxy: Option<&ProxyHeader>)
    ensures
        match proxy {
            None => xrpc_url_spec(request_host(handle, proxy), nsid) == xrpc_address(handle, nsid)
                && request_proxy(handle, proxy) is None,
            Some(p) => if on_bluesky_pds(handle) {
                xrpc_url_spec(request_host(handle, proxy), nsid) == xrpc_address(p.host@, nsid)
                    && request_proxy(handle, proxy) is None
            } else {
                xrpc_url_spec(request_host(handle, proxy), nsid) == xrpc_address(handle, nsid)
                    && request_proxy(handle, proxy) == Some(
                    "did:web:"@ + p.host@ + "#"@ + p.service_type@,
                )
            },
        },
{
    reveal_strlit(".bsky.social");
    assert(is_official_handle(handle) == on_bluesky_pds(handle));
}

fn plan_parts(handle: &str, nsid: &str, proxy: Option<&ProxyHeader>) -> (r: (String, Option<String>))
    ensures
        r.0@ == xrpc_url_spec(request_host(handle@, proxy), nsid@),
        match r.1 {
            Some(v) => request_proxy(handle@, proxy) == Some(v@),
            None => request_proxy(handle@, proxy) is None,
        },
        match proxy {
            None => r.0@ == xrpc_address(handle@, nsid@) && r.1 is None,
            Some(p) => if on_bluesky_pds(handle@) {
                r.0@ == xrpc_address(p.host@, nsid@) && r.1 is None
            } else {
                &&& r.0@ == xrpc_address(handle@, nsid@)
                &&& r.1 is Some
                &&& (r.1->0)@ == "did:web:"@ + p.host@ + "#"@ + p.service_type@
            },
        },
{
    proof {
        lemma_request_routing(handle@, nsid@, proxy);
    }
    let official = is_official_pds(handle);
    match proxy {
        Some(p) => {
            if official {
                (xrpc_url(p.host.as_str(), nsid), None)
            } else {
                (xrpc_url(handle, nsid), Some(p.header_value()))
            }
        },
        None => (xrpc_url(handle, nsid), None),
    }
}

/// How a GET call of `nsid` on behalf of the account of `session` is sent: to the host that
/// `request_host` names for the session's handle, with `?` and the query string of the
/// parameters where there are parameters, with the proxy header that `request_proxy` names,
/// and authorized by `Bearer {access token}`; refused where that header cannot be made.
pub fn plan_get(
    session: &Session,
    nsid: &str,
    params: Option<&Vec<QueryParam>>,
    proxy: Option<&ProxyHeader>,
) -> (r: Result<RequestPlan, AgentError>)
    ensures
        r is Ok <==> is_header_text(bearer_text(session.access_jwt@)),
        r matches Err(e) ==> e is InvalidHeaderValue,
        r matches Ok(p) ==> p.url@ == match params {
            Some(ps) => xrpc_url_spec(request_host(session.handle@, proxy), nsid@) + "?"@
                + query_of(ps@),
            None => xrpc_url_spec(request_host(session.handle@, proxy), nsid@),
        },
        r matches Ok(p) ==> plan_proxy(p) == request_proxy(session.handle@, proxy),
        r matches Ok(p) ==> p.authorization == header_value_of(bearer_text(session.access_jwt@)),
        r matches Ok(p) ==> match proxy {
            None => p.proxy is None && p.url@ == with_params(
                xrpc_address(session.handle@, nsid@),
                params,
            ),
            Some(x) => if on_bluesky_pds(session.handle@) {
                p.proxy is None && p.url@ == with_params(xrpc_address(x.host@, nsid@), params)
            } else {
                &&& p.url@ == with_params(xrpc_address(session.handle@, nsid@), params)
                &&& p.proxy is Some
                &&& (p.proxy->0)@ == "did:web:"@ + x.host@ + "#"@ + x.service_type@
            },
        },
{
    let (url, header) = plan_parts(session.handle.as_str(), nsid, proxy);
    let url = match params {
        Some(ps) => {
            let q = query_string(ps);
            with_query(url, q.as_str())
        },
        None => url,
    };
    let authorization = bearer_authorization(session.access_jwt.as_str())?;
    Ok(RequestPlan { url, proxy: header, authorization })
}

/// How a POST call of `nsid` on behalf of the account of `session` is sent: to the host that
/// `request_host` names for the session's handle, with the proxy header that `request_proxy`
/// names, and authorized by `Bearer {access token}`; refused where that header cannot be made.
pub fn plan_post(session: &Session, nsid: &str, proxy: Option<&ProxyHeader>) -> (r: Result<
    RequestPlan,
    AgentError,
>)
    ensures
        r is Ok <==> is_header_text(bearer_text(session.access_jwt@)),
        r matches Err(e) ==> e is InvalidHeaderValue,
        r matches Ok(p) ==> p.url@ == xrpc_url_spec(request_host(session.handle@, proxy), nsid@),
        r matches Ok(p) ==> plan_proxy(p) == request_proxy(session.handle@, proxy),
        r matches Ok(p) ==> p.authorization == header_value_of(bearer_text(session.access_jwt@)),
        r matches Ok(p) ==> match proxy {
            None => p.proxy is None && p.url@ == xrpc_address(session.handle@, nsid@),
            Some(x) => if on_bluesky_pds(session.handle@) {
                p.proxy is None && p.url@ == xrpc_address(x.host@, nsid@)
            } else {
                &&& p.url@ == xrpc_address(session.handle@, nsid@)
                &&& p.proxy is Some
                &&& (p.proxy->0)@ == "did:web:"@ + x.host@ + "#"@ + x.service_type@
            },
        },
{
    let (url, header) = plan_parts(session.handle.as_str(), nsid, proxy);
    let authorization = bearer_authorization(session.access_jwt.as_str())?;
    Ok(RequestPlan { url, proxy: header, authorization })
}

/// A logged-in session, as the PDS hands it out and the session store keeps it.
pub struct Session {
    pub access_jwt: String,
    pub active: Option<bool>,
    pub did: String,
    /// The DID document, as JSON text.
    pub did_doc: Option<String>,
    pub email: Option<String>,
    pub email_auth_factor: Option<bool>,
    pub email_confirmed: Option<bool>,
    pub handle: String,
    pub refresh_jwt: String,
    pub status: Option<String>,
}

/// What `com.atproto.server.refreshSession` answers, as far as the agent takes it over.
pub struct RefreshedSession {
    pub access_jwt: String,
    pub active: Option<bool>,
    pub did: String,
    pub did_doc: Option<String>,
    pub handle: String,
    pub refresh_jwt: String,
    pub status: Option<String>,
}

/// The session after a refresh: the tokens, account state, DID, DID document and handle come
/// from the refresh; the e-mail fields stay as they were.
pub open spec fn refreshed_session(old: Session, fresh: RefreshedSession) -> Session {
    Session {
        access_jwt: fresh.access_jwt,
        active: fresh.active,
        did: fresh.did,
        did_doc: fresh.did_doc,
        email: old.email,
        email_auth_factor: old.email_auth_factor,
        email_confirmed: old.email_confirmed,
        handle: fresh.handle,
        refresh_jwt: fresh.refresh_jwt,
        status: fresh.status,
    }
}

/// Takes a refreshed session over into the current one.
pub fn apply_refresh(old: Session, fresh: RefreshedSession) -> (r: Session)
    ensures
        r == refreshed_session(old, fresh),
{
    Session {
        access_jwt: fresh.access_jwt,
        active: fresh.active,
        did: fresh.did,
        did_doc: fresh.did_doc,
        email: old.email,
        email_auth_factor: old.email_auth_factor,
        email_confirmed: old.email_confirmed,
        handle: fresh.handle,
        refresh_jwt: fresh.refresh_jwt,
        status: fresh.status,
    }
}

/// The session that a freshly created account starts with: its tokens, DID, DID document,
/// handle and e-mail; nothing else is known yet.
pub fn new_account_session(
    access_jwt: String,
    did: String,
    did_doc: Option<String>,
    handle: String,
    refresh_jwt: String,
    email: String,
) -> (r: Session)
    ensures
        r.access_jwt == access_jwt,
        r.did == did,
        r.did_doc == did_doc,
        r.handle == handle,
        r.refresh_jwt == refresh_jwt,
        r.email == Some(email),
        r.active is None,
        r.email_auth_factor is None,
        r.email_confirmed is None,
        r.status is None,
{
    Session {
        access_jwt,
        active: None,
        did,
        did_doc,
        email: Some(email),
        email_auth_factor: None,
        email_confirmed: None,
        handle,
        refresh_jwt,
        status: None,
    }
}

/// How a session refresh ends.
pub enum RefreshOutcome {
    /// The PDS refused the refresh token as expired, invalid or taken down: go on with the
    /// session as it is.
    KeepCurrent,
    /// The answer is the new session: take it over.
    Replace,
    /// The refresh failed.
    Fail(AgentError),
}

/// `e` is present and one of the final refresh errors.
pub open spec fn is_final_refresh_error_opt(e: Option<Seq<char>>) -> bool {
    match e {
        Some(t) => is_final_refresh_error(t),
        None => false,
    }
}

impl RefreshOutcome {
    /// The refresh failed because the PDS refused it with the error `e`.
    pub open spec fn rejects_with(self, e: Seq<char>) -> bool {
        self matches RefreshOutcome::Fail(AgentError::RefreshRejected(m)) && m@ == e
    }
}

/// The texts that count as a final refusal of a refresh token: the bare names `ExpiredToken`,
/// `InvalidToken` and `AccountTakedown`, without quotes.
pub open spec fn is_final_refresh_error(e: Seq<char>) -> bool {
    e == "ExpiredToken"@ || e == "InvalidToken"@ || e == "AccountTakedown"@
}

/// Decides what an answer to `com.atproto.server.refreshSession` means for the session, given
/// its HTTP status and the JSON text of the `error` field of its body, where it has one: 401
/// keeps the session; 400 keeps it where that text is one of the bare final names, fails with
/// the text where it is not, and fails where there is no error; every other status carries
/// the new session. The text is compared as it stands: a JSON string keeps its quotes
/// (`"ExpiredToken"`), so an error that the PDS sends as a JSON string never counts as final,
/// and the refresh fails with it.
pub fn refresh_outcome(status: u16, error_json: Option<&str>) -> (r: RefreshOutcome)
    ensures
        status == 401 ==> r is KeepCurrent,
        status == 400 ==> match error_json {
            Some(e) => if is_final_refresh_error(e@) {
                r is KeepCurrent
            } else {
                r.rejects_with(e@)
            },
            None => r matches RefreshOutcome::Fail(AgentError::MissingErrorField),
        },
        status != 400 && status != 401 ==> r is Replace,
{
    if status == 401 {
        RefreshOutcome::KeepCurrent
    } else if status == 400 {
        match error_json {
            Some(e) => {
                if str_eq(e, "ExpiredToken") || str_eq(e, "InvalidToken") || str_eq(
                    e,
                    "AccountTakedown",
                ) {
                    RefreshOutcome::KeepCurrent
                } else {
                    RefreshOutcome::Fail(AgentError::RefreshRejected(e.to_owned()))
                }
            },
            None => RefreshOutcome::Fail(AgentError::MissingErrorField),
        }
    } else {
        RefreshOutcome::Replace
    }
}

/// Where and how a session is refreshed: a POST to
/// `https://{handle}/xrpc/com.atproto.server.refreshSession`, authorized by the refresh token.
pub fn refresh_request(session: &Session) -> (r: Result<(String, HeaderValue), AgentError>)
    ensures
        r is Ok <==> is_header_text(bearer_text(session.refresh_jwt@)),
        r matches Ok(p) ==> p.0@ == xrpc_url_spec(
            session.handle@,
            "com.atproto.server.refreshSession"@,
        ),
        r matches Ok(p) ==> p.1 == header_value_of(bearer_text(session.refresh_jwt@)),
        r matches Err(e) ==> e is InvalidHeaderValue,
{
    let authorization = bearer_authorization(session.refresh_jwt.as_str())?;
    Ok((xrpc_url(session.handle.as_str(), "com.atproto.server.refreshSession"), authorization))
}

/// The handle of a new account, checked as `Handle::from_str` checks it; the error names the
/// reason and the handle: `{reason}:{handle}`.
pub fn account_handle(handle: &str) -> (r: Result<String, String>)
    ensures
        r is Ok <==> is_valid_handle(handle@),
        r matches Ok(h) ==> h@ == handle@,
        r matches Err(e) ==> e@ == handle_error(handle@) + ":"@ + handle@,
{
    match parse_handle(handle) {
        Ok(h) => Ok(h),
        Err(e) => Err(concat3(e.as_str(), ":", handle)),
    }
}

/// The expiry that `jwt_compact` reads from the JWT `jwt`: `None` where the text is no token or
/// its claims cannot be read, otherwise the `exp` claim in seconds since the epoch, where there
/// is one.
pub uninterp spec fn jwt_expiration_of(jwt: Seq<char>) -> Option<Option<i64>>;

/// `jwt_compact::UntrustedToken::new` on `jwt`, then `deserialize_claims_unchecked` on the token
/// (the signature is not checked): `None` where either fails, otherwise the `exp` claim as a
/// Unix timestamp. The result depends on the text alone; what it is, is not stated here.
#[verifier::external_body]
fn jwt_expiration(jwt: &str) -> (r: Option<Option<i64>>)
    ensures
        r == jwt_expiration_of(jwt@),
{
    let token = jwt_compact::UntrustedToken::new(jwt).ok()?;
    let claims = token.deserialize_claims_unchecked::<serde_json::Value>().ok()?;
    Some(claims.expiration.map(|e| e.timestamp()))
}

/// Whether an access token has expired at `now` (seconds since the epoch), given what was read
/// of its expiry: a token that cannot be read counts as expired; one without an `exp` claim
/// never expires; otherwise it has expired once `exp` is not after `now`.
pub open spec fn token_expired(expiration: Option<Option<i64>>, now: i64) -> bool {
    match expiration {
        None => true,
        Some(None) => false,
        Some(Some(exp)) => exp <= now,
    }
}

/// The expiry decision for what was read of a token.
pub fn expired_at(expiration: Option<Option<i64>>, now: i64) -> (r: bool)
    ensures
        r == token_expired(expiration, now),
{
    match expiration {
        None => true,
        Some(None) => false,
        Some(Some(exp)) => exp <= now,
    }
}

/// Whether the access token `jwt` has expired at `now`: its expiry as `jwt_compact` reads it,
/// decided by `token_expired`.
pub fn is_jwt_expired(jwt: &str, now: i64) -> (r: bool)
    ensures
        r == token_expired(jwt_expiration_of(jwt@), now),
{
    expired_at(jwt_expiration(jwt), now)
}

/// What came of a refresh request.
pub enum RefreshAnswer {
    /// The request could not be sent.
    NotSent,
    /// The PDS answered with `status`; `error_json` is the JSON text of the `error` field of
    /// the body, where it has one, and `session` the body read as a refreshed session, or the
    /// reason it could not be read as one.
    Answered { status: u16, error_json: Option<String>, session: Result<RefreshedSession, String> },
}

/// The session after a refresh was tried, and whether it has to be stored again: unchanged
/// where the request could not be sent, the PDS answered 401, or it answered 400 with an
/// `error` whose JSON text is one of the bare final names (see `refresh_outcome`: a quoted
/// JSON string is not); taken over from the answer (and stored) where the PDS gave a new
/// session; otherwise the error.
pub fn session_after_refresh(current: Session, answer: RefreshAnswer) -> (r: Result<(Session, bool), AgentError>)
    ensures
        answer is NotSent ==> r == Ok::<(Session, bool), AgentError>((current, false)),
        answer matches RefreshAnswer::Answered { status, error_json, session } ==> {
            let e = match error_json {
                Some(t) => Some(t@),
                None => None,
            };
            if status == 401 || (status == 400 && is_final_refresh_error_opt(e)) {
                r == Ok::<(Session, bool), AgentError>((current, false))
            } else if status == 400 {
                match e {
                    Some(t) => r matches Err(AgentError::RefreshRejected(m)) && m@ == t,
                    None => r matches Err(AgentError::MissingErrorField),
                }
            } else {
                match session {
                    Ok(fresh) => r == Ok::<(Session, bool), AgentError>((refreshed_session(current, fresh), true)),
                    Err(why) => r == Err::<(Session, bool), AgentError>(AgentError::InvalidBody(why)),
                }
            }
        },
{
    match answer {
        RefreshAnswer::NotSent => Ok((current, false)),
        RefreshAnswer::Answered { status, error_json, session } => {
            let e = match &error_json {
                Some(t) => Some(t.as_str()),
                None => None,
            };
            match refresh_outcome(status, e) {
                RefreshOutcome::KeepCurrent => Ok((current, false)),
                RefreshOutcome::Fail(err) => Err(err),
                RefreshOutcome::Replace => match session {
                    Ok(fresh) => Ok((apply_refresh(current, fresh), true)),
                    Err(why) => Err(AgentError::InvalidBody(why)),
                },
            }
        },
    }
}

/// An agent for the account `did`, with its current session.
pub struct AtAgent {
    pub did: String,
    pub session: Session,
}

impl AtAgent {
    /// An agent without a session, on the PDS of this agent's handle.
    pub fn to_noath_agent(&self) -> (r: PublicAtAgent)
        ensures
            r.endpoint@ == "https://"@ + self.session.handle@,
    {
        PublicAtAgent::from_handle(self.session.handle.as_str())
    }

    /// The parameters that fetch this account's profile record: the collection
    /// `app.bsky.actor.profile`, the repository of the agent's DID, the key `self`, and no CID.
    pub fn my_profile_record_params(&self) -> (r: Vec<QueryParam>)
        ensures
            r@.len() == 4,
            r@[0].name@ == "cid"@ && r@[0].value is None,
            r@[1].name@ == "collection"@,
            r@[1].value matches Some(v) && v@ == "app.bsky.actor.profile"@,
            r@[2].name@ == "repo"@,
            r@[2].value matches Some(v) && v@ == self.did@,
            r@[3].name@ == "rkey"@,
            r@[3].value matches Some(v) && v@ == "self"@,
    {
        let mut r: Vec<QueryParam> = Vec::new();
        r.push(QueryParam::new("cid", None));
        r.push(QueryParam::new("collection", Some("app.bsky.actor.profile".to_owned())));
        r.push(QueryParam::new("repo", Some(self.did.clone())));
        r.push(QueryParam::new("rkey", Some("self".to_owned())));
        r
    }
}

} // verus!
