use pds_client::xrpc::{
    query_string, xrpc_url, xrpc_url_unless_blank, xrpc_url_with_query, Blob, PdsAdminAgent,
    PublicAtAgent, QueryParam, Url,
};

fn param(name: &str, value: Option<&str>) -> QueryParam {
    QueryParam::new(name, value.map(|v| v.to_string()))
}

#[test]
fn query_leaves_out_missing_values() {
    let ps = vec![param("actor", Some("alice.bsky.social")), param("cursor", None), param("limit", Some("30"))];
    assert_eq!(query_string(&ps), "actor=alice.bsky.social&limit=30");
}

#[test]
fn query_of_no_values_is_empty() {
    let ps = vec![param("cursor", None), param("limit", None)];
    assert_eq!(query_string(&ps), "");
    assert_eq!(query_string(&Vec::new()), "");
}

#[test]
fn query_encodes_as_form_urlencoded() {
    let ps = vec![param("q", Some("a b&c=d")), param("x", Some("comté")), param("y", Some("*-._~"))];
    assert_eq!(query_string(&ps), "q=a+b%26c%3Dd&x=comt%C3%A9&y=*-._%7E");
}

#[test]
fn query_encodes_uris() {
    let ps = vec![param("uri", Some("at://did:plc:abc/app.bsky.feed.post/3k"))];
    assert_eq!(query_string(&ps), "uri=at%3A%2F%2Fdid%3Aplc%3Aabc%2Fapp.bsky.feed.post%2F3k");
}

#[test]
fn xrpc_urls() {
    assert_eq!(xrpc_url("bsky.social", "app.bsky.actor.getProfile"), "https://bsky.social/xrpc/app.bsky.actor.getProfile");
    let ps = vec![param("actor", Some("bob.test"))];
    assert_eq!(xrpc_url_with_query("pds.test", "app.bsky.actor.getProfile", &ps), "https://pds.test/xrpc/app.bsky.actor.getProfile?actor=bob.test");
    assert_eq!(xrpc_url_with_query("pds.test", "app.bsky.actor.getPreferences", &Vec::new()), "https://pds.test/xrpc/app.bsky.actor.getPreferences?");
}

#[test]
fn blank_query_is_left_out() {
    let none = vec![param("cursor", None), param("limit", None), param("sort", None)];
    assert_eq!(xrpc_url_unless_blank("pds.test", "m.n.o", &none), "https://pds.test/xrpc/m.n.o");
    let some = vec![param("sort", Some("recent"))];
    assert_eq!(xrpc_url_unless_blank("pds.test", "m.n.o", &some), "https://pds.test/xrpc/m.n.o?sort=recent");
}

#[test]
fn admin_agent_urls() {
    let agent = PdsAdminAgent { pds_site: "pds.example.com".to_string(), token: "secret".to_string() };
    assert_eq!(agent.url("com.atproto.admin.deleteAccount"), "https://pds.example.com/xrpc/com.atproto.admin.deleteAccount");
    let ps = vec![param("cursor", None), param("limit", Some("10"))];
    assert_eq!(agent.url_with_parameter("com.atproto.sync.listRepos", &ps), "https://pds.example.com/xrpc/com.atproto.sync.listRepos?limit=10");
    assert_eq!(agent.invite_codes_url(&vec![param("cursor", None)]), "https://pds.example.com/xrpc/com.atproto.admin.getInviteCodes");
    assert_eq!(agent.invite_codes_url(&vec![param("limit", Some("5"))]), "https://pds.example.com/xrpc/com.atproto.admin.getInviteCodes?limit=5");
    assert_eq!(agent.basic_auth(), ("admin".to_string(), "secret".to_string()));
}

#[test]
fn public_agent_endpoints() {
    assert_eq!(PublicAtAgent::new("https://x.test".to_string()).endpoint, "https://x.test");
    assert_eq!(PublicAtAgent::from_handle("alice.example.com").endpoint, "https://alice.example.com");
    assert_eq!(PublicAtAgent::default().endpoint, "https://public.api.bsky.app");
}

#[test]
fn app_view_queries_go_to_the_public_app_view() {
    let agent = PublicAtAgent::from_handle("alice.example.com");
    let ps = vec![param("actor", Some("alice.example.com"))];
    assert_eq!(agent.app_view_url("app.bsky.feed.getAuthorFeed", &ps), "https://public.api.bsky.app/xrpc/app.bsky.feed.getAuthorFeed?actor=alice.example.com");
}

#[test]
fn list_repos_goes_to_the_named_pds() {
    let ps = vec![param("cursor", None), param("limit", None)];
    assert_eq!(PublicAtAgent::default().list_repos_url("pds.test", "com.atproto.sync.listRepos", &ps), "https://pds.test/xrpc/com.atproto.sync.listRepos?");
}

#[test]
fn blob_url() {
    let agent = PublicAtAgent::from_handle("alice.example.com");
    let url: Url<Blob> = agent.com_atproto_sync_getBlob("bafkreia", "did:plc:abc");
    assert_eq!(url.0, "https://alice.example.com/xrpc/com.atproto.sync.getBlob?cid=bafkreia&did=did%3Aplc%3Aabc");
}

#[test]
fn url_keeps_its_text() {
    let url: Url<Blob> = Url::new("https://x.test/y".to_string());
    assert_eq!(url.0, "https://x.test/y");
}
