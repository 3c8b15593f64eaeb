use pds_client::agent::{
    expired_at, is_jwt_expired,
    account_handle, apply_refresh, bearer_authorization, is_official_pds, new_account_session,
    plan_get, plan_post, refresh_outcome, refresh_request, AgentError, AgentRequestError, AtAgent,
    ProxyHeader, RefreshAnswer, RefreshOutcome, RefreshedSession, Session, session_after_refresh,
};
use pds_client::xrpc::{query_string, QueryParam};

fn session(handle: &str) -> Session {
    Session {
        access_jwt: "access-1".to_string(),
        active: Some(true),
        did: "did:plc:old".to_string(),
        did_doc: None,
        email: Some("a@b.c".to_string()),
        email_auth_factor: Some(false),
        email_confirmed: Some(true),
        handle: handle.to_string(),
        refresh_jwt: "refresh-1".to_string(),
        status: None,
    }
}

#[test]
fn request_error_display() {
    let e = AgentRequestError { code: 400, error: "InvalidRequest".to_string(), message: "bad cursor".to_string() };
    assert_eq!(e.to_string(), "code:400,error:InvalidRequest,message:bad cursor");
    let z = AgentRequestError { code: 0, error: String::new(), message: String::new() };
    assert_eq!(z.to_string(), "code:0,error:,message:");
    let m = AgentRequestError { code: 65535, error: "e".to_string(), message: "m".to_string() };
    assert_eq!(m.to_string(), "code:65535,error:e,message:m");
}

#[test]
fn bearer_header() {
    let v = bearer_authorization("abc.def.ghi").ok().unwrap();
    assert_eq!(v, "Bearer abc.def.ghi");
    assert!(matches!(bearer_authorization("bad\ntoken"), Err(AgentError::InvalidHeaderValue)));
    assert!(matches!(bearer_authorization("del\u{7f}"), Err(AgentError::InvalidHeaderValue)));
    assert!(bearer_authorization("tab\tand é").is_ok());
}

#[test]
fn chat_proxy_header() {
    let p = ProxyHeader::bsky_chat();
    assert_eq!(p.host, "api.bsky.chat");
    assert_eq!(p.header_value(), "did:web:api.bsky.chat#bsky_chat");
}

#[test]
fn official_pds_is_recognised_by_handle() {
    assert!(is_official_pds("alice.bsky.social"));
    assert!(!is_official_pds("alice.example.com"));
    assert!(!is_official_pds("bsky.social"));
}

#[test]
fn proxied_call_on_official_pds_goes_to_service() {
    let p = ProxyHeader::bsky_chat();
    let ps = vec![QueryParam::new("convoId", Some("c1".to_string()))];
    let plan = plan_get(&session("alice.bsky.social"), "chat.bsky.convo.getMessages", Some(&ps), Some(&p)).ok().unwrap();
    assert_eq!(plan.url, "https://api.bsky.chat/xrpc/chat.bsky.convo.getMessages?convoId=c1");
    assert_eq!(plan.proxy, None);
}

#[test]
fn proxied_call_on_own_pds_carries_header() {
    let p = ProxyHeader::bsky_chat();
    let plan = plan_post(&session("alice.example.com"), "chat.bsky.convo.sendMessage", Some(&p)).ok().unwrap();
    assert_eq!(plan.url, "https://alice.example.com/xrpc/chat.bsky.convo.sendMessage");
    assert_eq!(plan.proxy, Some("did:web:api.bsky.chat#bsky_chat".to_string()));
}

#[test]
fn unproxied_call_goes_to_own_pds() {
    let plan = plan_get(&session("alice.bsky.social"), "app.bsky.feed.getTimeline", Some(&Vec::new()), None).ok().unwrap();
    assert_eq!(plan.url, "https://alice.bsky.social/xrpc/app.bsky.feed.getTimeline?");
    assert_eq!(plan.proxy, None);
    let plan = plan_get(&session("alice.bsky.social"), "app.bsky.feed.getTimeline", None, None).ok().unwrap();
    assert_eq!(plan.url, "https://alice.bsky.social/xrpc/app.bsky.feed.getTimeline");
}

#[test]
fn refresh_takes_tokens_and_keeps_email() {
    let fresh = RefreshedSession {
        access_jwt: "access-2".to_string(),
        active: Some(false),
        did: "did:plc:new".to_string(),
        did_doc: Some("{}".to_string()),
        handle: "new.example.com".to_string(),
        refresh_jwt: "refresh-2".to_string(),
        status: Some("takendown".to_string()),
    };
    let s = apply_refresh(session("old.example.com"), fresh);
    assert_eq!(s.access_jwt, "access-2");
    assert_eq!(s.refresh_jwt, "refresh-2");
    assert_eq!(s.active, Some(false));
    assert_eq!(s.did, "did:plc:new");
    assert_eq!(s.did_doc, Some("{}".to_string()));
    assert_eq!(s.handle, "new.example.com");
    assert_eq!(s.status, Some("takendown".to_string()));
    assert_eq!(s.email, Some("a@b.c".to_string()));
    assert_eq!(s.email_auth_factor, Some(false));
    assert_eq!(s.email_confirmed, Some(true));
}

#[test]
fn new_account_session_fields() {
    let s = new_account_session("a".to_string(), "did:plc:x".to_string(), None, "x.test".to_string(), "r".to_string(), "x@y.z".to_string());
    assert_eq!(s.email, Some("x@y.z".to_string()));
    assert_eq!(s.active, None);
    assert_eq!(s.status, None);
    assert_eq!(s.handle, "x.test");
}

#[test]
fn refresh_outcomes() {
    assert!(matches!(refresh_outcome(401, None), RefreshOutcome::KeepCurrent));
    assert!(matches!(refresh_outcome(401, Some("\"Whatever\"")), RefreshOutcome::KeepCurrent));
    assert!(matches!(refresh_outcome(400, Some("ExpiredToken")), RefreshOutcome::KeepCurrent));
    assert!(matches!(refresh_outcome(400, Some("InvalidToken")), RefreshOutcome::KeepCurrent));
    assert!(matches!(refresh_outcome(400, Some("AccountTakedown")), RefreshOutcome::KeepCurrent));
    assert!(matches!(refresh_outcome(400, None), RefreshOutcome::Fail(AgentError::MissingErrorField)));
    match refresh_outcome(400, Some("\"ExpiredToken\"")) {
        RefreshOutcome::Fail(AgentError::RefreshRejected(m)) => assert_eq!(m, "\"ExpiredToken\""),
        _ => panic!("a quoted error is not one of the final errors"),
    }
    assert!(matches!(refresh_outcome(200, None), RefreshOutcome::Replace));
    assert!(matches!(refresh_outcome(500, Some("x")), RefreshOutcome::Replace));
}

#[test]
fn refresh_request_targets_own_pds() {
    let (url, auth) = refresh_request(&session("alice.example.com")).ok().unwrap();
    assert_eq!(url, "https://alice.example.com/xrpc/com.atproto.server.refreshSession");
    assert_eq!(auth, "Bearer refresh-1");
    let mut bad = session("alice.example.com");
    bad.refresh_jwt = "x\r\ny".to_string();
    assert!(matches!(refresh_request(&bad), Err(AgentError::InvalidHeaderValue)));
}

#[test]
fn account_handle_errors_name_the_handle() {
    assert_eq!(account_handle("bob.example.com"), Ok("bob.example.com".to_string()));
    assert_eq!(account_handle("bob"), Err("Invalid handle:bob".to_string()));
}

#[test]
fn agent_profile_record_and_public_agent() {
    let agent = AtAgent { did: "did:plc:abc".to_string(), session: session("alice.example.com") };
    assert_eq!(agent.to_noath_agent().endpoint, "https://alice.example.com");
    let ps = agent.my_profile_record_params();
    assert_eq!(query_string(&ps), "collection=app.bsky.actor.profile&repo=did%3Aplc%3Aabc&rkey=self");
}

fn fresh() -> RefreshedSession {
    RefreshedSession {
        access_jwt: "access-2".to_string(),
        active: None,
        did: "did:plc:old".to_string(),
        did_doc: None,
        handle: "alice.example.com".to_string(),
        refresh_jwt: "refresh-2".to_string(),
        status: None,
    }
}

#[test]
fn unsent_refresh_keeps_session() {
    let (s, changed) = session_after_refresh(session("alice.example.com"), RefreshAnswer::NotSent).ok().unwrap();
    assert_eq!(s.access_jwt, "access-1");
    assert!(!changed);
}

#[test]
fn refused_refresh_keeps_session() {
    let answer = RefreshAnswer::Answered { status: 401, error_json: None, session: Err("no".to_string()) };
    let (s, changed) = session_after_refresh(session("alice.example.com"), answer).ok().unwrap();
    assert_eq!(s.refresh_jwt, "refresh-1");
    assert!(!changed);
}

#[test]
fn successful_refresh_is_stored() {
    let answer = RefreshAnswer::Answered { status: 200, error_json: None, session: Ok(fresh()) };
    let (s, changed) = session_after_refresh(session("alice.example.com"), answer).ok().unwrap();
    assert_eq!(s.access_jwt, "access-2");
    assert_eq!(s.email, Some("a@b.c".to_string()));
    assert!(changed);
}

#[test]
fn failed_refreshes() {
    let answer = RefreshAnswer::Answered { status: 400, error_json: Some("\"InvalidToken\"".to_string()), session: Ok(fresh()) };
    match session_after_refresh(session("a.test"), answer) {
        Err(AgentError::RefreshRejected(m)) => assert_eq!(m, "\"InvalidToken\""),
        _ => panic!("expected a rejected refresh"),
    }
    let answer = RefreshAnswer::Answered { status: 200, error_json: None, session: Err("missing field".to_string()) };
    match session_after_refresh(session("a.test"), answer) {
        Err(AgentError::InvalidBody(m)) => assert_eq!(m, "missing field"),
        _ => panic!("expected an unreadable body"),
    }
}

#[test]
fn calls_carry_the_access_token() {
    let plan = plan_get(&session("alice.bsky.social"), "app.bsky.feed.getTimeline", None, None).ok().unwrap();
    assert_eq!(plan.authorization, "Bearer access-1");
    let plan = plan_post(&session("alice.example.com"), "com.atproto.repo.putRecord", None).ok().unwrap();
    assert_eq!(plan.authorization, "Bearer access-1");
    let mut bad = session("alice.example.com");
    bad.access_jwt = "a\nb".to_string();
    assert!(matches!(plan_get(&bad, "app.bsky.feed.getTimeline", None, None), Err(AgentError::InvalidHeaderValue)));
    assert!(matches!(plan_post(&bad, "com.atproto.repo.putRecord", None), Err(AgentError::InvalidHeaderValue)));
    assert_eq!(bearer_authorization("tok").ok().unwrap(), "Bearer tok");
    let (_, header) = refresh_request(&session("alice.example.com")).ok().unwrap();
    assert_eq!(header, "Bearer refresh-1");
}

const JWT_HEADER: &str = "eyJhbGciOiJIUzI1NiIsInR5cCI6IkpXVCJ9";

#[test]
fn access_token_expiry() {
    let expiring = format!("{JWT_HEADER}.eyJleHAiOjEwMH0.c2ln");
    assert!(!is_jwt_expired(&expiring, 99));
    assert!(is_jwt_expired(&expiring, 100));
    assert!(is_jwt_expired(&expiring, 101));
    let without_exp = format!("{JWT_HEADER}.e30.c2ln");
    assert!(!is_jwt_expired(&without_exp, i64::MAX));
    assert!(is_jwt_expired("not a token", 0));
    assert!(expired_at(None, 0));
    assert!(!expired_at(Some(None), 0));
    assert!(expired_at(Some(Some(5)), 5));
    assert!(!expired_at(Some(Some(6)), 5));
}
