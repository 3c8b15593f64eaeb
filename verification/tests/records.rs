use pds_client::records::{shown_replies, thread_placeholder, ThreadEntry, aturi2rkey, get_root, post_uri, record_key_of_uri, reply_data, reply_ref, PostRecord, Record, ThreadPost};

fn post(cid: &str, uri: &str, parent: Option<ThreadPost>) -> ThreadPost {
    ThreadPost { cid: cid.to_string(), uri: uri.to_string(), parent: parent.map(Box::new) }
}

#[test]
fn record_key_of_at_uri() {
    assert_eq!(aturi2rkey("at://did:plc:abc/app.bsky.feed.post/3kxyz"), Some("3kxyz"));
    assert_eq!(aturi2rkey("at://did:plc:abc/app.bsky.feed.post/3kxyz#frag"), Some("3kxyz"));
    assert_eq!(aturi2rkey("no-slash"), Some("no-slash"));
    assert_eq!(aturi2rkey("ends/"), Some(""));
    assert_eq!(aturi2rkey(""), Some(""));
}

#[test]
fn record_key_for_post_page() {
    assert_eq!(record_key_of_uri("at://did:plc:abc/app.bsky.feed.post/3kxyz?x=1"), "3kxyz");
    assert_eq!(record_key_of_uri("at://did:plc:abc/app.bsky.feed.post/3kxyz#a?b"), "3kxyz#a");
}

#[test]
fn post_uri_of_handle_and_key() {
    assert_eq!(post_uri("alice.bsky.social", "3kxyz"), "at://alice.bsky.social/app.bsky.feed.post/3kxyz");
}

#[test]
fn post_record_collection() {
    assert_eq!(PostRecord::NSID, "app.bsky.feed.post");
}

#[test]
fn root_of_thread() {
    let root = post("c1", "u1", None);
    let mid = post("c2", "u2", Some(root));
    let leaf = post("c3", "u3", Some(mid));
    let r = get_root(&leaf);
    assert_eq!((r.cid.as_str(), r.uri.as_str()), ("c1", "u1"));
    let lone = post("c9", "u9", None);
    let r = get_root(&lone);
    assert_eq!((r.cid.as_str(), r.uri.as_str()), ("c9", "u9"));
}

#[test]
fn reply_refers_to_post_and_root() {
    let leaf = post("c3", "u3", Some(post("c2", "u2", Some(post("c1", "u1", None)))));
    let r = reply_ref(&leaf);
    assert_eq!((r.parent.cid.as_str(), r.parent.uri.as_str()), ("c3", "u3"));
    assert_eq!((r.root.cid.as_str(), r.root.uri.as_str()), ("c1", "u1"));
    let parent = leaf.parent.as_ref().unwrap();
    let pr = reply_ref(parent);
    assert_eq!(pr.root.uri, r.root.uri);
}

#[test]
fn reply_needs_a_session_and_a_post() {
    let p = post("c2", "u2", Some(post("c1", "u1", None)));
    assert!(reply_data(0, Some(&p)).is_none());
    assert!(reply_data(2, None).is_none());
    let r = reply_data(1, Some(&p)).unwrap();
    assert_eq!(r.parent.uri, "u2");
    assert_eq!(r.root.uri, "u1");
}

#[test]
fn thread_shows_only_post_replies_in_order() {
    let entries = vec![ThreadEntry::Blocked, ThreadEntry::Post, ThreadEntry::NotFound, ThreadEntry::Post, ThreadEntry::Unknown];
    assert_eq!(shown_replies(&entries), vec![1, 3]);
    assert_eq!(shown_replies(&Vec::new()), Vec::<usize>::new());
    assert_eq!(thread_placeholder(ThreadEntry::NotFound), "not_found");
    assert_eq!(thread_placeholder(ThreadEntry::Blocked), "blocked");
    assert_eq!(thread_placeholder(ThreadEntry::Unknown), "");
    assert_eq!(thread_placeholder(ThreadEntry::Post), "");
}
