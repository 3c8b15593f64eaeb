use pds_client::pages::{
    active_label, author_label, can_delete, conversation_lines, convo_avatar, is_main_session, login_handle,
    offers_takedown, or_unknown, profile_name, send_enabled, signup_enabled, signup_request,
    use_count_after_edit, avatar_source, avatar_source_of, card_takedown_change, last_message_text, messages_need_login, post_content, sender_label,
    users_page_takedown_change, ChatItem, ConvoMember,
};
use pds_client::strings::{char_is_whitespace, signed_decimal_string};
use pds_client::text::{text_for, Language, Text};

#[test]
fn login_handle_is_trimmed_and_checked() {
    assert_eq!(login_handle("  alice.bsky.social \n"), Ok("alice.bsky.social".to_string()));
    assert_eq!(login_handle(" alice "), Err("Invalid handle".to_string()));
    assert_eq!(login_handle("\u{3000}bob.example.com\u{a0}"), Ok("bob.example.com".to_string()));
}

#[test]
fn signup_form() {
    let r = signup_request(" bob.example.com ", " bob@example.com\t", " pw ", "");
    assert_eq!(r.handle, "bob.example.com");
    assert_eq!(r.email, "bob@example.com");
    assert_eq!(r.password, " pw ");
    assert_eq!(r.invite_code, None);
    let r = signup_request("b.c", "e", "p", "code-123");
    assert_eq!(r.invite_code, Some("code-123".to_string()));
    assert!(signup_enabled(false, "pw", "pw"));
    assert!(!signup_enabled(false, "pw", "pw2"));
    assert!(!signup_enabled(true, "pw", "pw"));
}

#[test]
fn blank_messages_are_not_sent() {
    assert!(send_enabled(false, "hi"));
    assert!(!send_enabled(false, " \n\t"));
    assert!(!send_enabled(false, ""));
    assert!(!send_enabled(true, "hi"));
}

#[test]
fn conversation_shows_messages_oldest_first() {
    let items = vec![
        ChatItem::Message { sender: "did:plc:me".to_string(), text: "third".to_string() },
        ChatItem::Deleted,
        ChatItem::Message { sender: "did:plc:you".to_string(), text: "  ".to_string() },
        ChatItem::Unknown,
        ChatItem::Message { sender: "did:plc:you".to_string(), text: "first".to_string() },
    ];
    let lines = conversation_lines(&items, "did:plc:me");
    assert_eq!(lines.len(), 2);
    assert_eq!((lines[0].mine, lines[0].sender.as_str(), lines[0].text.as_str()), (false, "did:plc:you", "first"));
    assert_eq!((lines[1].mine, lines[1].sender.as_str(), lines[1].text.as_str()), (true, "did:plc:me", "third"));
}

#[test]
fn conversation_avatar_is_the_other_members() {
    let members = vec![
        ConvoMember { did: "did:plc:me".to_string(), avatar: Some("me.png".to_string()) },
        ConvoMember { did: "did:plc:you".to_string(), avatar: Some("you.png".to_string()) },
    ];
    assert_eq!(convo_avatar(&members, "did:plc:me"), "you.png");
    let no_avatar = vec![ConvoMember { did: "did:plc:you".to_string(), avatar: None }];
    assert_eq!(convo_avatar(&no_avatar, "did:plc:me"), "");
    assert_eq!(convo_avatar(&Vec::new(), "did:plc:me"), "");
}

#[test]
fn labels() {
    assert_eq!(or_unknown(Some("active")), "active");
    assert_eq!(or_unknown(None), "unknown");
    assert_eq!(active_label(Some(true)), "true");
    assert_eq!(active_label(Some(false)), "false");
    assert_eq!(active_label(None), "unknown");
    assert!(offers_takedown(None));
    assert!(offers_takedown(Some(true)));
    assert!(!offers_takedown(Some(false)));
    assert_eq!(author_label(Some("Alice")), "Alice");
    assert_eq!(author_label(None), "unknown");
    assert_eq!(profile_name(None, "alice.test"), "alice.test");
    assert_eq!(profile_name(Some("Alice"), "alice.test"), "Alice");
    assert!(is_main_session("did:plc:a", Some("did:plc:a")));
    assert!(!is_main_session("did:plc:a", Some("did:plc:b")));
    assert!(!is_main_session("did:plc:a", None));
}

#[test]
fn use_count_edits() {
    assert_eq!(use_count_after_edit("5", 1), 5);
    assert_eq!(use_count_after_edit("+7", 1), 7);
    assert_eq!(use_count_after_edit("007", 1), 7);
    assert_eq!(use_count_after_edit("", 3), 3);
    assert_eq!(use_count_after_edit("+", 3), 3);
    assert_eq!(use_count_after_edit("-0", 3), 3);
    assert_eq!(use_count_after_edit(" 5", 3), 3);
    assert_eq!(use_count_after_edit("abc", 3), 3);
    assert_eq!(use_count_after_edit("99999999999999999999999", 3), 3);
}

#[test]
fn text_of_language() {
    let t = |s: &'static str| Text { bottom_to_bookshelf_page: s, bottom_to_discovery_page: s, bottom_to_message_page: s, bottom_to_my_page: s };
    assert_eq!(text_for(Language::Ja, t("zh"), t("en"), t("ja")).bottom_to_my_page, "ja");
    assert_eq!(text_for(Language::Zh, t("zh"), t("en"), t("ja")).bottom_to_message_page, "zh");
    assert_eq!(text_for(Language::En, t("zh"), t("en"), t("ja")).bottom_to_bookshelf_page, "en");
}

#[test]
fn own_posts_can_be_deleted() {
    let mine = vec!["did:plc:a".to_string(), "did:plc:b".to_string()];
    assert!(can_delete(&mine, "did:plc:b"));
    assert!(!can_delete(&mine, "did:plc:c"));
    assert!(!can_delete(&Vec::new(), "did:plc:a"));
}

#[test]
fn takedown_changes() {
    let c = card_takedown_change("did:plc:abc", true, 1718000000);
    assert_eq!(c.did, "did:plc:abc");
    assert!(c.applied);
    assert_eq!(c.reference, Some("1718000000".to_string()));
    let c = card_takedown_change("did:plc:abc", false, 1718000000);
    assert!(!c.applied);
    assert_eq!(c.reference, None);
    let c = users_page_takedown_change("did:plc:xyz", true);
    assert_eq!(c.did, "did:plc:xyz");
    assert!(c.applied);
    assert_eq!(c.reference, None);
}

#[test]
fn signed_decimals() {
    assert_eq!(signed_decimal_string(0), "0");
    assert_eq!(signed_decimal_string(-45), "-45");
    assert_eq!(signed_decimal_string(i64::MIN), i64::MIN.to_string());
    assert_eq!(signed_decimal_string(i64::MAX), i64::MAX.to_string());
}

#[test]
fn post_content_or_empty() {
    assert_eq!(post_content(Some("hello")), "hello");
    assert_eq!(post_content(Some("")), "");
    assert_eq!(post_content(None), "(post is empty)");
}

#[test]
fn conversation_previews() {
    let m = ChatItem::Message { sender: "did:plc:a".to_string(), text: "hi".to_string() };
    assert_eq!(last_message_text(Some(&m)), "hi");
    assert_eq!(last_message_text(Some(&ChatItem::Deleted)), "message has benn delete");
    assert_eq!(last_message_text(Some(&ChatItem::Unknown)), " ");
    assert_eq!(last_message_text(None), " ");
    assert_eq!(sender_label(Some("Alice")), "Alice : ");
    assert_eq!(sender_label(None), "");
    assert!(messages_need_login(0, false));
    assert!(!messages_need_login(0, true));
    assert!(!messages_need_login(2, false));
}

#[test]
fn use_count_agrees_with_std_parse() {
    let max = usize::MAX.to_string();
    assert_eq!(use_count_after_edit(&max, 3), usize::MAX);
    let over = format!("{}0", max);
    assert_eq!(use_count_after_edit(&over, 3), 3);
    for text in ["0", "+0", "12", "12a", "1+2", "++1", "٣", "42 ", "+-1", "0000000000000000000000000001"] {
        let expected = text.parse::<usize>().unwrap_or(3);
        assert_eq!(use_count_after_edit(text, 3), expected, "{text}");
    }
}

#[test]
fn white_space_agrees_with_std() {
    for u in 0u32..=0x10FFFF {
        if let Some(c) = char::from_u32(u) {
            assert_eq!(char_is_whitespace(c), c.is_whitespace(), "{u:#x}");
        }
    }
}

const CID: &str = "bafkreibme22gw2h7y2h7tg2fhqotaqjucnbc24deqo72b6mkl2egezxhvy";

#[test]
fn settings_avatar_source() {
    let url = format!("https://alice.example.com/xrpc/com.atproto.sync.getBlob?cid={CID}&did=did%3Aplc%3Aabc");
    assert_eq!(avatar_source("alice.example.com", "did:plc:abc", Some(CID)), url);
    assert_eq!(avatar_source("alice.example.com", "did:plc:abc", Some(&CID.to_uppercase().replacen('B', "B", 1))), url);
    assert_eq!(avatar_source("alice.example.com", "did:plc:abc", Some("not a cid")), "");
    assert_eq!(avatar_source("alice.example.com", "not a did", Some(CID)), "");
    assert_eq!(avatar_source("alice.example.com", "did:plc:abc", None), "");
    assert_eq!(avatar_source_of("alice.example.com", "did:plc:abc", Some("x")), "https://alice.example.com/xrpc/com.atproto.sync.getBlob?cid=x&did=did%3Aplc%3Aabc");
    assert_eq!(avatar_source_of("alice.example.com", "did:plc:abc", None), "");
}
