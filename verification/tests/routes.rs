use pds_client::routes::{post_page_of, segments_of_path, AppRoute};

fn strings(v: &[&str]) -> Vec<String> {
    v.iter().map(|s| s.to_string()).collect()
}

#[test]
fn static_pages_and_their_paths() {
    let pages = [
        ("/", AppRoute::SocialPage {}),
        ("/messages", AppRoute::MessagePage {}),
        ("/my", AppRoute::MyPage {}),
        ("/setting", AppRoute::SettingPage {}),
        ("/setting/password", AppRoute::PasswordPage {}),
        ("/login", AppRoute::LoginPage {}),
        ("/signup", AppRoute::SignupPage {}),
        ("/pds", AppRoute::PdsPage {}),
    ];
    for (path, page) in pages.iter() {
        assert_eq!(page.path(), *path);
        assert_eq!(AppRoute::from_path(path).path(), *path);
    }
    assert!(matches!(AppRoute::from_path("/"), AppRoute::SocialPage {}));
    assert!(matches!(AppRoute::from_path(""), AppRoute::SocialPage {}));
    assert!(matches!(AppRoute::from_path("/messages"), AppRoute::MessagePage {}));
    assert!(matches!(AppRoute::from_path("/setting/password"), AppRoute::PasswordPage {}));
    assert!(matches!(AppRoute::from_path("/pds"), AppRoute::PdsPage {}));
}

#[test]
fn profile_page_takes_a_handle() {
    let page = AppRoute::ProfilePage { user_handle: "alice.bsky.social".to_string() };
    assert_eq!(page.path(), "/profile/alice.bsky.social");
    match AppRoute::from_path("/profile/alice.bsky.social") {
        AppRoute::ProfilePage { user_handle } => assert_eq!(user_handle, "alice.bsky.social"),
        _ => panic!("expected the profile page"),
    }
    match AppRoute::from_path("/profile/not a handle") {
        AppRoute::PageNotFound { route } => assert_eq!(route, strings(&["profile", "not a handle"])),
        _ => panic!("expected no page"),
    }
}

#[test]
fn conversation_page_takes_a_did() {
    let page = AppRoute::ConversationPage {
        user_did: "did:plc:abc123".to_string(),
        conversation_id: "3kconvo".to_string(),
    };
    assert_eq!(page.path(), "/conversation/did:plc:abc123/3kconvo");
    match AppRoute::from_path("/conversation/did:plc:abc123/3kconvo") {
        AppRoute::ConversationPage { user_did, conversation_id } => {
            assert_eq!(user_did, "did:plc:abc123");
            assert_eq!(conversation_id, "3kconvo");
        }
        _ => panic!("expected the conversation page"),
    }
    assert!(matches!(
        AppRoute::from_path("/conversation/alice/3kconvo"),
        AppRoute::PageNotFound { .. }
    ));
}

#[test]
fn post_page_and_pds_users_page() {
    let page = AppRoute::PostPage {
        user_handle: "alice.bsky.social".to_string(),
        record_key: "3kxyz".to_string(),
    };
    assert_eq!(page.path(), "/user/alice.bsky.social/bsky.app/post/3kxyz");
    match AppRoute::from_path("/user/alice.bsky.social/bsky.app/post/3kxyz") {
        AppRoute::PostPage { user_handle, record_key } => {
            assert_eq!(user_handle, "alice.bsky.social");
            assert_eq!(record_key, "3kxyz");
        }
        _ => panic!("expected the post page"),
    }
    let users = AppRoute::PdsUsersManagementPage { pds_domain: "pds.example.com".to_string() };
    assert_eq!(users.path(), "/pds/pds.example.com/users");
    match AppRoute::from_path("/pds/pds.example.com/users") {
        AppRoute::PdsUsersManagementPage { pds_domain } => assert_eq!(pds_domain, "pds.example.com"),
        _ => panic!("expected the users page"),
    }
}

#[test]
fn unknown_paths_keep_their_segments() {
    match AppRoute::from_path("/no/such//page/") {
        AppRoute::PageNotFound { route } => {
            assert_eq!(route, strings(&["no", "such", "", "page", ""]));
            let back = AppRoute::PageNotFound { route };
            assert_eq!(back.path(), "/no/such//page/");
        }
        _ => panic!("expected no page"),
    }
    assert_eq!(segments_of_path("/"), Vec::<String>::new());
    assert_eq!(segments_of_path("/a/b"), strings(&["a", "b"]));
    assert_eq!(segments_of_path("a/b"), strings(&["a", "b"]));
    assert_eq!(segments_of_path("//"), strings(&["", ""]));
}

#[test]
fn every_path_is_written_back_as_it_was_read() {
    for path in ["/", "/messages", "/x", "/setting/password/extra", "/profile/bob.test", "/a//b/"] {
        assert_eq!(AppRoute::from_path(path).path(), path);
    }
}

#[test]
fn a_post_links_to_its_page() {
    let page = post_page_of("alice.bsky.social", "at://did:plc:abc/app.bsky.feed.post/3kxyz?x=1");
    assert_eq!(page.path(), "/user/alice.bsky.social/bsky.app/post/3kxyz");
    match AppRoute::from_path(&page.path()) {
        AppRoute::PostPage { user_handle, record_key } => {
            assert_eq!(user_handle, "alice.bsky.social");
            assert_eq!(record_key, "3kxyz");
        }
        _ => panic!("expected the post page"),
    }
}
