//! The decisions that the app's pages make: what a form submits, when a button is enabled,
//! which chat messages are shown, and how missing values are labelled.
use vstd::prelude::*;

use crate::identifiers::{
    handle_error, is_digit, is_valid_did, is_valid_handle, parse_did, parse_handle,
};
use crate::xrpc::{form_pairs, get_blob_nsid, PublicAtAgent};
use crate::strings::{
    chars_of, concat, is_blank, is_blank_seq, is_white_space, signed_decimal, signed_decimal_string, str_eq, trim, trim_str,
};

verus! {

/// The handle typed into the login form, checked after trimming: the handle, or the reason it
/// was refused.
pub fn login_handle(input: &str) -> (r: Result<String, String>)
    ensures
        r is Ok <==> is_valid_handle(trim(input@)),
        r matches Ok(h) ==> h@ == trim(input@),
        r matches Err(e) ==> e@ == handle_error(trim(input@)),
{
    parse_handle(trim_str(input))
}

/// What the sign-up form submits.
pub struct SignupRequest {
    pub handle: String,
    pub password: String,
    pub email: String,
    pub invite_code: Option<String>,
}

/// The sign-up request of the form's fields: handle and e-mail trimmed, the password as typed,
/// and the invite code only where one was typed.
pub fn signup_request(handle: &str, email: &str, password: &str, invite_code: &str) -> (r:
    SignupRequest)
    ensures
        r.handle@ == trim(handle@),
        r.email@ == trim(email@),
        r.password@ == password@,
        invite_code@.len() == 0 ==> r.invite_code is None,
        invite_code@.len() > 0 ==> r.invite_code is Some && (r.invite_code->0)@ == invite_code@,
{
    SignupRequest {
        handle: trim_str(handle).to_owned(),
        password: password.to_owned(),
        email: trim_str(email).to_owned(),
        invite_code: if invite_code.is_empty() {
            None
        } else {
            Some(invite_code.to_owned())
        },
    }
}

/// The sign-up button works while no request is under way and the two passwords agree.
pub fn signup_enabled(busy: bool, password: &str, repeated: &str) -> (r: bool)
    ensures
        r == (!busy && password@ == repeated@),
{
    !busy && str_eq(password, repeated)
}

/// A message is sent only while no other is under way, and only where it is not blank.
pub fn send_enabled(busy: bool, draft: &str) -> (r: bool)
    ensures
        r == (!busy && !is_blank_seq(draft@)),
{
    !busy && !is_blank(draft)
}

/// An item of a conversation, as the chat service lists it (newest first).
pub enum ChatItem {
    /// A message from `sender`.
    Message { sender: String, text: String },
    /// A message that was deleted.
    Deleted,
    /// An item of a kind this client does not know.
    Unknown,
}

/// A message as the conversation page shows it.
pub struct MessageLine {
    /// Sent by the viewing account (shown on the right, without an avatar).
    pub mine: bool,
    pub sender: String,
    pub text: String,
}

/// The texts of a message line.
pub open spec fn line_view(l: MessageLine) -> (bool, Seq<char>, Seq<char>) {
    (l.mine, l.sender@, l.text@)
}

/// The lines that `items` (newest first) show for the account `me`: oldest first, only the
/// messages whose text is not blank.
pub open spec fn conversation_lines_spec(items: Seq<ChatItem>, me: Seq<char>) -> Seq<(bool, Seq<char>, Seq<char>)>
    decreases items.len(),
{
    if items.len() == 0 {
        Seq::empty()
    } else {
        let rest = conversation_lines_spec(items.drop_first(), me);
        match items[0] {
            ChatItem::Message { sender, text } => if is_blank_seq(text@) {
                rest
            } else {
                rest.push((sender@ == me, sender@, text@))
            },
            _ => rest,
        }
    }
}

/// `t` holds some character that is not white space.
pub open spec fn has_text(t: Seq<char>) -> bool {
    exists|k: int| 0 <= k < t.len() && !is_white_space(#[trigger] t[k])
}

/// The line that the message `text` from `sender` shows for the account `me`.
pub open spec fn message_line(sender: Seq<char>, text: Seq<char>, me: Seq<char>) -> (bool, Seq<char>, Seq<char>) {
    (sender == me, sender, text)
}

/// Every message whose text holds a character other than white space is shown, with its sender
/// and its text as they are, marked as mine exactly where `me` sent it.
pub proof fn lemma_conversation_shows_every_message(items: Seq<ChatItem>, me: Seq<char>)
    ensures
        forall|i: int|
            0 <= i < items.len() ==> match #[trigger] items[i] {
                ChatItem::Message { sender, text } => has_text(text@) ==> conversation_lines_spec(
                    items,
                    me,
                ).contains(message_line(sender@, text@, me)),
                _ => true,
            },
    decreases items.len(),
{
    if items.len() > 0 {
        let rest = items.drop_first();
        lemma_conversation_shows_every_message(rest, me);
        let lines = conversation_lines_spec(items, me);
        let rl = conversation_lines_spec(rest, me);
        assert forall|i: int| 0 <= i < items.len() implies match #[trigger] items[i] {
            ChatItem::Message { sender, text } => has_text(text@) ==> lines.contains(
                message_line(sender@, text@, me),
            ),
            _ => true,
        } by {
            match items[i] {
                ChatItem::Message { sender, text } => {
                    if has_text(text@) {
                        if i == 0 {
                            assert(!is_blank_seq(text@));
                            assert(lines == rl.push(message_line(sender@, text@, me)));
                            assert(lines[rl.len() as int] == message_line(sender@, text@, me));
                        } else {
                            assert(rest[i - 1] == items[i]);
                            assert(rl.contains(message_line(sender@, text@, me)));
                            let k = choose|k: int| 0 <= k < rl.len() && rl[k] == message_line(sender@, text@, me);
                            assert(lines[k] == rl[k]);
                        }
                    }
                },
                _ => {},
            }
        }
    }
}

/// Every line shown comes from a message of the conversation whose text holds a character
/// other than white space: nothing blank, deleted or unknown is shown.
pub proof fn lemma_conversation_shows_only_messages(items: Seq<ChatItem>, me: Seq<char>)
    ensures
        forall|k: int|
            #![trigger conversation_lines_spec(items, me)[k]]
            0 <= k < conversation_lines_spec(items, me).len() ==> exists|i: int|
                0 <= i < items.len() && match #[trigger] items[i] {
                    ChatItem::Message { sender, text } => has_text(text@)
                        && conversation_lines_spec(items, me)[k] == message_line(sender@, text@, me),
                    _ => false,
                },
    decreases items.len(),
{
    if items.len() > 0 {
        let rest = items.drop_first();
        lemma_conversation_shows_only_messages(rest, me);
        let lines = conversation_lines_spec(items, me);
        let rl = conversation_lines_spec(rest, me);
        assert forall|k: int| #![trigger lines[k]] 0 <= k < lines.len() implies exists|i: int|
            0 <= i < items.len() && match #[trigger] items[i] {
                ChatItem::Message { sender, text } => has_text(text@) && lines[k] == message_line(
                    sender@,
                    text@,
                    me,
                ),
                _ => false,
            } by {
            if k < rl.len() {
                assert(lines[k] == rl[k]) by {
                    match items[0] {
                        ChatItem::Message { sender, text } => {
                            if !is_blank_seq(text@) {
                                assert(lines == rl.push(message_line(sender@, text@, me)));
                            }
                        },
                        _ => {},
                    }
                }
                let j = choose|j: int| 0 <= j < rest.len() && match #[trigger] rest[j] {
                    ChatItem::Message { sender, text } => has_text(text@) && rl[k] == message_line(
                        sender@,
                        text@,
                        me,
                    ),
                    _ => false,
                };
                assert(items[j + 1] == rest[j]);
            } else {
                match items[0] {
                    ChatItem::Message { sender, text } => {
                        assert(!is_blank_seq(text@));
                        let c = choose|c: int| 0 <= c < text@.len() && !is_white_space(text@[c]);
                        assert(has_text(text@));
                        assert(lines == rl.push(message_line(sender@, text@, me)));
                    },
                    _ => {},
                }
            }
        }
    }
}

/// Showing a conversation with one item more, newer than all the others: a message with text
/// adds its line after all the others (the newest is shown last); anything else changes
/// nothing.
pub proof fn lemma_conversation_newest_last(item: ChatItem, items: Seq<ChatItem>, me: Seq<char>)
    ensures
        conversation_lines_spec(seq![item] + items, me) == match item {
            ChatItem::Message { sender, text } => if has_text(text@) {
                conversation_lines_spec(items, me).push(message_line(sender@, text@, me))
            } else {
                conversation_lines_spec(items, me)
            },
            _ => conversation_lines_spec(items, me),
        },
{
    let all = seq![item] + items;
    assert(all.drop_first() =~= items);
    assert(all[0] == item);
    match item {
        ChatItem::Message { sender, text } => {
            if has_text(text@) {
                let c = choose|c: int| 0 <= c < text@.len() && !is_white_space(#[trigger] text@[c]);
                assert(!is_blank_seq(text@));
            } else {
                assert forall|k: int| 0 <= k < text@.len() implies is_white_space(#[trigger] text@[k]) by {
                    if !is_white_space(text@[k]) {
                        assert(has_text(text@));
                    }
                }
            }
        },
        _ => {},
    }
}

/// The lines of a conversation for the account `me`: every message with text is shown, and
/// nothing else.
pub fn conversation_lines(items: &Vec<ChatItem>, me: &str) -> (r: Vec<MessageLine>)
    ensures
        r@.map_values(|l: MessageLine| line_view(l)) == conversation_lines_spec(items@, me@),
        forall|i: int|
            0 <= i < items.len() ==> match #[trigger] items@[i] {
                ChatItem::Message { sender, text } => has_text(text@) ==> r@.map_values(
                    |l: MessageLine| line_view(l),
                ).contains(message_line(sender@, text@, me@)),
                _ => true,
            },
        forall|k: int|
            #![trigger r@[k]]
            0 <= k < r.len() ==> exists|i: int|
                0 <= i < items.len() && match #[trigger] items@[i] {
                    ChatItem::Message { sender, text } => has_text(text@) && line_view(r@[k])
                        == message_line(sender@, text@, me@),
                    _ => false,
                },
{
    let mut r: Vec<MessageLine> = Vec::new();
    let mut i: usize = items.len();
    while i > 0
        invariant
            i <= items.len(),
            r@.map_values(|l: MessageLine| line_view(l)) == conversation_lines_spec(
                items@.subrange(i as int, items.len() as int),
                me@,
            ),
        decreases i,
    {
        let ghost before = r@.map_values(|l: MessageLine| line_view(l));
        let ghost tail = items@.subrange(i - 1, items.len() as int);
        assert(tail.drop_first() =~= items@.subrange(i as int, items.len() as int));
        assert(tail[0] == items@[i - 1]);
        match &items[i - 1] {
            ChatItem::Message { sender, text } => {
                if !is_blank(text.as_str()) {
                    let mine = str_eq(sender.as_str(), me);
                    r.push(MessageLine { mine, sender: sender.clone(), text: text.clone() });
                    assert(r@.map_values(|l: MessageLine| line_view(l)) =~= before.push(
                        (sender@ == me@, sender@, text@),
                    ));
                }
            },
            _ => {},
        }
        i = i - 1;
    }
    assert(items@.subrange(0, items.len() as int) =~= items@);
    proof {
        lemma_conversation_shows_every_message(items@, me@);
        lemma_conversation_shows_only_messages(items@, me@);
        let lv = r@.map_values(|l: MessageLine| line_view(l));
        assert forall|k: int| #![trigger r@[k]] 0 <= k < r.len() implies exists|i: int|
            0 <= i < items.len() && match #[trigger] items@[i] {
                ChatItem::Message { sender, text } => has_text(text@) && line_view(r@[k])
                    == message_line(sender@, text@, me@),
                _ => false,
            } by {
            assert(lv[k] == line_view(r@[k]));
        }
    }
    r
}

/// The preview of a conversation's last message: its text, a note where it was deleted, and a
/// blank where there is none or it is of a kind this client does not know.
pub fn last_message_text(last: Option<&ChatItem>) -> (r: &str)
    ensures
        last matches Some(ChatItem::Message { text, .. }) ==> r@ == text@,
        last matches Some(ChatItem::Deleted) ==> r@ == "message has benn delete"@,
        last matches Some(ChatItem::Unknown) ==> r@ == " "@,
        last is None ==> r@ == " "@,
{
    match last {
        Some(ChatItem::Message { text, .. }) => text.as_str(),
        Some(ChatItem::Deleted) => "message has benn delete",
        _ => " ",
    }
}

/// How the sender of a previewed message is named: `{display name} : `, or nothing where the
/// sender has no display name.
pub fn sender_label(display_name: Option<&str>) -> (r: String)
    ensures
        display_name matches Some(n) ==> r@ == n@ + " : "@,
        display_name is None ==> r@ == Seq::<char>::empty(),
{
    match display_name {
        Some(n) => concat(n, " : "),
        None => String::new(),
    }
}

/// The messages page asks to log in where no account's conversations were loaded and no
/// account is the main one.
pub fn messages_need_login(loaded_accounts: usize, has_main_account: bool) -> (r: bool)
    ensures
        r == (loaded_accounts == 0 && !has_main_account),
{
    loaded_accounts == 0 && !has_main_account
}

/// A member of a conversation.
pub struct ConvoMember {
    pub did: String,
    pub avatar: Option<String>,
}

/// The avatar shown for a conversation: that of the first member other than `me`, where it
/// has one; the empty text otherwise.
pub open spec fn convo_avatar_spec(members: Seq<ConvoMember>, me: Seq<char>) -> Seq<char>
    decreases members.len(),
{
    if members.len() == 0 {
        Seq::empty()
    } else if members[0].did@ != me {
        match members[0].avatar {
            Some(a) => a@,
            None => Seq::empty(),
        }
    } else {
        convo_avatar_spec(members.drop_first(), me)
    }
}

/// The avatar of a member as text: its avatar, or the empty text where it has none.
pub open spec fn member_avatar(m: ConvoMember) -> Seq<char> {
    match m.avatar {
        Some(a) => a@,
        None => Seq::<char>::empty(),
    }
}

/// The avatar shown for a conversation is that of its first member other than `me`, wherever
/// that member stands: the members before it, all `me`, are passed over and no other member
/// is; where every member is `me`, no avatar is shown.
pub proof fn lemma_convo_avatar_first_other(members: Seq<ConvoMember>, me: Seq<char>)
    ensures
        forall|j: int|
            0 <= j < members.len() && (#[trigger] members[j]).did@ != me && (forall|k: int|
                0 <= k < j ==> members[k].did@ == me) ==> convo_avatar_spec(members, me)
                == member_avatar(members[j]),
        (forall|k: int| 0 <= k < members.len() ==> (#[trigger] members[k]).did@ == me)
            ==> convo_avatar_spec(members, me) == Seq::<char>::empty(),
    decreases members.len(),
{
    if members.len() > 0 {
        let rest = members.drop_first();
        lemma_convo_avatar_first_other(rest, me);
        assert forall|j: int|
            0 <= j < members.len() && (#[trigger] members[j]).did@ != me && (forall|k: int|
                0 <= k < j ==> members[k].did@ == me) implies convo_avatar_spec(members, me)
                == member_avatar(members[j]) by {
            if j > 0 {
                assert(members[0].did@ == me);
                assert(rest[j - 1] == members[j]);
                assert forall|k: int| 0 <= k < j - 1 implies rest[k].did@ == me by {
                    assert(rest[k] == members[k + 1]);
                }
            }
        }
        if forall|k: int| 0 <= k < members.len() ==> (#[trigger] members[k]).did@ == me {
            assert(members[0].did@ == me);
            assert forall|k: int| 0 <= k < rest.len() implies (#[trigger] rest[k]).did@ == me by {
                assert(rest[k] == members[k + 1]);
            }
        }
    }
}

/// The avatar of a conversation for the account `me`: that of the first member other than
/// `me`, or the empty text.
pub fn convo_avatar(members: &Vec<ConvoMember>, me: &str) -> (r: String)
    ensures
        r@ == convo_avatar_spec(members@, me@),
        forall|j: int|
            0 <= j < members.len() && (#[trigger] members@[j]).did@ != me@ && (forall|k: int|
                0 <= k < j ==> members@[k].did@ == me@) ==> r@ == member_avatar(members@[j]),
        (forall|k: int| 0 <= k < members.len() ==> (#[trigger] members@[k]).did@ == me@) ==> r@
            == Seq::<char>::empty(),
{
    proof {
        lemma_convo_avatar_first_other(members@, me@);
    }
    let mut i: usize = 0;
    assert(members@.subrange(0, members.len() as int) =~= members@);
    while i < members.len()
        invariant
            i <= members.len(),
            convo_avatar_spec(members@, me@) == convo_avatar_spec(
                members@.subrange(i as int, members.len() as int),
                me@,
            ),
        decreases members.len() - i,
    {
        let ghost tail = members@.subrange(i as int, members.len() as int);
        assert(tail[0] == members@[i as int]);
        if !str_eq(members[i].did.as_str(), me) {
            proof {
                lemma_convo_avatar_first_other(members@, me@);
            }
            return match &members[i].avatar {
                Some(a) => a.clone(),
                None => String::new(),
            };
        }
        assert(tail.drop_first() =~= members@.subrange(i + 1, members.len() as int));
        i = i + 1;
    }
    String::new()
}

/// What a profile page lists.
pub enum ListType {
    Collection,
    Posts,
}

/// A label for a value that may be missing: the value, or `unknown`.
pub fn or_unknown(value: Option<&str>) -> (r: &str)
    ensures
        value matches Some(v) ==> r@ == v@,
        value is None ==> r@ == "unknown"@,
{
    match value {
        Some(v) => v,
        None => "unknown",
    }
}

/// Whether an account is offered a takedown (rather than a reversal of one): where it is active,
/// or where its state is not known.
pub fn offers_takedown(active: Option<bool>) -> (r: bool)
    ensures
        r == match active {
            Some(a) => a,
            None => true,
        },
{
    match active {
        Some(a) => a,
        None => true,
    }
}

/// A change of an account's takedown state, as the PDS administration takes it: the
/// account's DID, whether the takedown applies, and the reference that it carries.
pub struct TakedownChange {
    pub did: String,
    pub applied: bool,
    pub reference: Option<String>,
}

/// The takedown change that an account's card sends: a takedown carries as its reference the
/// time it was made (`now`, in seconds since the epoch, in decimal); its reversal carries none.
pub fn card_takedown_change(did: &str, applied: bool, now: i64) -> (r: TakedownChange)
    ensures
        r.did@ == did@,
        r.applied == applied,
        applied ==> (r.reference matches Some(t) && t@ == signed_decimal(now as int)),
        !applied ==> r.reference is None,
{
    TakedownChange {
        did: did.to_owned(),
        applied,
        reference: if applied {
            Some(signed_decimal_string(now))
        } else {
            None
        },
    }
}

/// The takedown change that the users page of a PDS sends: the state as chosen, without a
/// reference.
pub fn users_page_takedown_change(did: &str, new_state: bool) -> (r: TakedownChange)
    ensures
        r.did@ == did@,
        r.applied == new_state,
        r.reference is None,
{
    TakedownChange { did: did.to_owned(), applied: new_state, reference: None }
}

/// How an account's `active` flag is shown: `true`, `false`, or `unknown`.
pub fn active_label(active: Option<bool>) -> (r: &'static str)
    ensures
        active == Some(true) ==> r@ == "true"@,
        active == Some(false) ==> r@ == "false"@,
        active is None ==> r@ == "unknown"@,
{
    match active {
        Some(true) => "true",
        Some(false) => "false",
        None => "unknown",
    }
}

/// A post's author as shown: the display name, or `unknown`.
pub fn author_label(display_name: Option<&str>) -> (r: &str)
    ensures
        display_name matches Some(n) ==> r@ == n@,
        display_name is None ==> r@ == "unknown"@,
{
    or_unknown(display_name)
}

/// What a post's view shows as its content: the post's text, or `(post is empty)` where the
/// record holds no post.
pub fn post_content(text: Option<&str>) -> (r: &str)
    ensures
        text matches Some(t) ==> r@ == t@,
        text is None ==> r@ == "(post is empty)"@,
{
    match text {
        Some(t) => t,
        None => "(post is empty)",
    }
}

/// The text of a CID as `atrium_api` reads it and writes it back, or nothing where it is no CID.
pub uninterp spec fn cid_text_of(s: Seq<char>) -> Option<Seq<char>>;

/// `atrium_api::types::string::Cid::from_str` on `s`, the parsed CID written back with
/// `Display`: `None` where `s` is no CID. The result depends on `s` alone; which texts are CIDs
/// and how they are written back is not stated here.
#[verifier::external_body]
fn cid_text(s: &str) -> (r: Option<String>)
    ensures
        match r {
            Some(t) => cid_text_of(s@) == Some(t@),
            None => cid_text_of(s@) is None,
        },
{
    match s.parse::<atrium_api::types::string::Cid>() {
        Ok(cid) => Some(cid.as_ref().to_string()),
        Err(_) => None,
    }
}

/// The image source of an account's avatar on the settings page, given the account's handle
/// and DID and the CID of its avatar as read back (`None` where there is no avatar or its CID
/// does not parse): the URL of the blob on the account's PDS, or the empty text where there is
/// no CID or the DID is not valid.
pub open spec fn avatar_source_spec(handle: Seq<char>, did: Seq<char>, cid: Option<Seq<char>>) -> Seq<
    char,
> {
    match cid {
        Some(c) => if is_valid_did(did) {
            "https://"@ + handle + "/xrpc/"@ + get_blob_nsid() + "?"@ + form_pairs(
                seq![("cid"@, c), ("did"@, did)],
            )
        } else {
            Seq::<char>::empty()
        },
        None => Seq::<char>::empty(),
    }
}

/// The avatar's image source for a CID already read back.
pub fn avatar_source_of(handle: &str, did: &str, cid: Option<&str>) -> (r: String)
    ensures
        r@ == avatar_source_spec(
            handle@,
            did@,
            match cid {
                Some(c) => Some(c@),
                None => None,
            },
        ),
{
    match cid {
        Some(c) => match parse_did(did) {
            Ok(_) => PublicAtAgent::from_handle(handle).com_atproto_sync_getBlob(c, did).0,
            Err(_) => String::new(),
        },
        None => String::new(),
    }
}

/// The avatar's image source on the settings page, from the CID text of the avatar blob, where
/// the profile has one: the CID is read as `atrium_api` reads it; where it or the DID does not
/// parse, the source is empty.
pub fn avatar_source(handle: &str, did: &str, avatar_cid: Option<&str>) -> (r: String)
    ensures
        avatar_cid is None ==> r@ == Seq::<char>::empty(),
        avatar_cid matches Some(c) ==> r@ == avatar_source_spec(handle@, did@, cid_text_of(c@)),
{
    match avatar_cid {
        Some(c) => {
            let canonical = cid_text(c);
            match canonical {
                Some(t) => avatar_source_of(handle, did, Some(t.as_str())),
                None => avatar_source_of(handle, did, None),
            }
        },
        None => String::new(),
    }
}

/// The name shown on a profile: the display name, or else the handle.
pub fn profile_name<'a>(display_name: Option<&'a str>, handle: &'a str) -> (r: &'a str)
    ensures
        display_name matches Some(n) ==> r@ == n@,
        display_name is None ==> r@ == handle@,
{
    match display_name {
        Some(n) => n,
        None => handle,
    }
}

/// A post can be deleted from this device where one of its sessions is the post's author.
pub fn can_delete(my_dids: &Vec<String>, author: &str) -> (r: bool)
    ensures
        r == my_dids@.map_values(|d: String| d@).contains(author@),
{
    let mut i: usize = 0;
    while i < my_dids.len()
        invariant
            i <= my_dids.len(),
            forall|k: int| 0 <= k < i ==> my_dids@[k]@ != author@,
        decreases my_dids.len() - i,
    {
        if str_eq(my_dids[i].as_str(), author) {
            assert(my_dids@.map_values(|d: String| d@)[i as int] == author@);
            return true;
        }
        i = i + 1;
    }
    proof {
        let v = my_dids@.map_values(|d: String| d@);
        if v.contains(author@) {
            let k = choose|k: int| 0 <= k < v.len() && v[k] == author@;
            assert(my_dids@[k]@ == author@);
        }
    }
    false
}

/// Whether the session of `did` is the device's main one.
pub fn is_main_session(did: &str, main: Option<&str>) -> (r: bool)
    ensures
        r == (main matches Some(m) && m@ == did@),
{
    match main {
        Some(m) => str_eq(m, did),
        None => false,
    }
}

/// The value of a string of decimal digits.
pub open spec fn digits_value(s: Seq<char>) -> int
    decreases s.len(),
{
    if s.len() == 0 {
        0
    } else {
        digits_value(s.drop_last()) * 10 + ((s.last() as u32) - 0x30)
    }
}

/// `s` without a leading `+`.
pub open spec fn unsigned_digits(s: Seq<char>) -> Seq<char> {
    if s.len() > 0 && s[0] == '+' {
        s.drop_first()
    } else {
        s
    }
}

/// `s` is a count that `usize::from_str` accepts: an optional `+` and at least one decimal
/// digit, of a value that fits in a `usize`.
pub open spec fn is_count_text(s: Seq<char>) -> bool {
    let d = unsigned_digits(s);
    &&& d.len() > 0
    &&& forall|i: int| 0 <= i < d.len() ==> is_digit(#[trigger] d[i])
    &&& digits_value(d) <= usize::MAX
}

/// The value of digits only grows as digits are added.
proof fn lemma_digits_value_grows(d: Seq<char>, k: int)
    requires
        0 <= k <= d.len(),
        forall|i: int| 0 <= i < d.len() ==> is_digit(#[trigger] d[i]),
    ensures
        0 <= digits_value(d.take(k)) <= digits_value(d),
    decreases d.len() - k,
{
    if k < d.len() {
        lemma_digits_value_grows(d, k + 1);
        assert forall|i: int| 0 <= i < d.take(k).len() implies is_digit(#[trigger] d.take(k)[i]) by {
            assert(d.take(k)[i] == d[i]);
        }
        lemma_digits_value_nonneg(d.take(k));
        assert(d.take(k + 1).drop_last() =~= d.take(k));
        assert(is_digit(d[k]));
        assert(d.take(k + 1).last() == d[k]);
    } else {
        assert(d.take(k) =~= d);
        lemma_digits_value_nonneg(d);
    }
}

/// The value of digits is not negative.
proof fn lemma_digits_value_nonneg(d: Seq<char>)
    requires
        forall|i: int| 0 <= i < d.len() ==> is_digit(#[trigger] d[i]),
    ensures
        digits_value(d) >= 0,
    decreases d.len(),
{
    if d.len() > 0 {
        assert forall|i: int| 0 <= i < d.drop_last().len() implies is_digit(#[trigger] d.drop_last()[i]) by {
            assert(d.drop_last()[i] == d[i]);
        }
        lemma_digits_value_nonneg(d.drop_last());
        assert(is_digit(d[d.len() - 1]));
    }
}

/// Reads a count as `usize::from_str` does: an optional `+` followed by decimal digits whose
/// value fits in a `usize`, giving that value; nothing for any other text.
fn usize_from_str(s: &str) -> (r: Option<usize>)
    ensures
        r is Some <==> is_count_text(s@),
        r matches Some(n) ==> n == digits_value(unsigned_digits(s@)),
{
    let v = chars_of(s);
    let n = v.len();
    let start: usize = if n > 0 && v[0] == '+' {
        1
    } else {
        0
    };
    let ghost d = unsigned_digits(s@);
    proof {
        if start == 1 {
            assert(d =~= s@.subrange(1, n as int));
        } else {
            assert(d =~= s@.subrange(0, n as int));
        }
    }
    if start == n {
        return None;
    }
    let mut value: usize = 0;
    let mut i: usize = start;
    while i < n
        invariant
            v@ == s@,
            n == v.len(),
            start <= i <= n,
            start < n,
            d == s@.subrange(start as int, n as int),
            d == unsigned_digits(s@),
            forall|k: int| 0 <= k < i - start ==> is_digit(#[trigger] d[k]),
            value == digits_value(d.take(i - start)),
        decreases n - i,
    {
        let c = v[i];
        assert(d[i - start] == c);
        let u = c as u32;
        if !(0x30 <= u && u <= 0x39) {
            assert(!is_digit(d[i - start]));
            return None;
        }
        let digit = (u - 0x30) as usize;
        let ghost next = d.take(i - start + 1);
        assert(next.drop_last() =~= d.take(i - start));
        assert(next.last() == c);
        match value.checked_mul(10) {
            Some(m) => match m.checked_add(digit) {
                Some(a) => {
                    value = a;
                },
                None => {
                    proof { lemma_too_large(d, (i - start + 1) as int); }
                    return None;
                },
            },
            None => {
                proof {
                    lemma_digits_value_nonneg(d.take(i - start));
                    lemma_too_large(d, (i - start + 1) as int);
                }
                return None;
            },
        }
        i = i + 1;
    }
    assert(d.take(n - start) =~= d);
    Some(value)
}

/// Where a prefix of digits already exceeds `usize::MAX`, the text is no count.
proof fn lemma_too_large(d: Seq<char>, k: int)
    requires
        0 <= k <= d.len(),
        forall|i: int| 0 <= i < k ==> is_digit(#[trigger] d[i]),
        digits_value(d.take(k)) > usize::MAX,
    ensures
        !(forall|i: int| 0 <= i < d.len() ==> is_digit(#[trigger] d[i]))
            || digits_value(d) > usize::MAX,
{
    if forall|i: int| 0 <= i < d.len() ==> is_digit(#[trigger] d[i]) {
        lemma_digits_value_grows(d, k);
    }
}

/// The use count of a new invite code after the field was edited to `input`: the number typed,
/// or the count as it was where the text is not a number.
pub fn use_count_after_edit(input: &str, current: usize) -> (r: usize)
    ensures
        is_count_text(input@) ==> r == digits_value(unsigned_digits(input@)),
        !is_count_text(input@) ==> r == current,
{
    match usize_from_str(input) {
        Some(n) => n,
        None => current,
    }
}

} // verus!
