//! The app's pages and the paths that address them: each page is written as a path, and a path
//! is read back as the page it names, or as "not found" with its segments.
use vstd::prelude::*;

use crate::accounts::texts;
use crate::records::{after_last, before_first, lemma_last_segment_plain, record_key_of_uri};
use crate::identifiers::{
    did_syntax_at, is_did_char, is_label_char, is_lower, is_valid_did, is_valid_handle, parse_did,
    parse_handle,
};
use crate::strings::{chars_of, str_eq};

verus! {

/// The pieces of `s` between the separators `sep`, in order: one piece where `s` holds no
/// separator, an empty piece before a leading and after a trailing separator.
pub open spec fn split(s: Seq<char>, sep: char) -> Seq<Seq<char>>
    decreases s.len(),
{
    if s.len() == 0 {
        seq![Seq::<char>::empty()]
    } else {
        let prev = split(s.drop_last(), sep);
        if s.last() == sep {
            prev.push(Seq::<char>::empty())
        } else {
            prev.update(prev.len() - 1, prev.last().push(s.last()))
        }
    }
}

/// The pieces `segs`, with `sep` between each two.
pub open spec fn join(segs: Seq<Seq<char>>, sep: char) -> Seq<char>
    decreases segs.len(),
{
    if segs.len() == 0 {
        Seq::<char>::empty()
    } else if segs.len() == 1 {
        segs[0]
    } else {
        join(segs.drop_last(), sep) + seq![sep] + segs.last()
    }
}

/// The segments of a path: what follows its leading `/`, split at each `/`; none for the
/// path `/` itself.
pub open spec fn path_segments(p: Seq<char>) -> Seq<Seq<char>> {
    let rest = if p.len() > 0 && p[0] == '/' {
        p.drop_first()
    } else {
        p
    };
    if rest.len() == 0 {
        Seq::<Seq<char>>::empty()
    } else {
        split(rest, '/')
    }
}

/// Splitting gives at least one piece.
proof fn lemma_split_len(s: Seq<char>, sep: char)
    ensures
        split(s, sep).len() >= 1,
    decreases s.len(),
{
    if s.len() > 0 {
        lemma_split_len(s.drop_last(), sep);
    }
}

/// Adding a character to the last piece adds it to the end of the joined text.
proof fn lemma_join_extend_last(q: Seq<Seq<char>>, sep: char, c: char)
    requires
        q.len() >= 1,
    ensures
        join(q.update(q.len() - 1, q.last().push(c)), sep) == join(q, sep).push(c),
{
    let q2 = q.update(q.len() - 1, q.last().push(c));
    if q.len() == 1 {
        assert(q2[0] == q[0].push(c));
    } else {
        assert(q2.drop_last() =~= q.drop_last());
        assert(q2.last() == q.last().push(c));
        assert(join(q2, sep) == join(q2.drop_last(), sep) + seq![sep] + q2.last());
        assert(join(q, sep) == join(q.drop_last(), sep) + seq![sep] + q.last());
        assert(join(q2, sep) =~= join(q, sep).push(c));
    }
}

/// Joining the pieces of `s` gives `s` back.
pub proof fn lemma_join_split(s: Seq<char>, sep: char)
    ensures
        join(split(s, sep), sep) == s,
    decreases s.len(),
{
    if s.len() == 0 {
        assert(join(split(s, sep), sep) =~= s);
    } else {
        let prev = split(s.drop_last(), sep);
        lemma_join_split(s.drop_last(), sep);
        lemma_split_len(s.drop_last(), sep);
        if s.last() == sep {
            let q = prev.push(Seq::<char>::empty());
            assert(q.drop_last() =~= prev);
            assert(join(q, sep) == join(prev, sep) + seq![sep] + Seq::<char>::empty());
            assert(join(q, sep) =~= s);
        } else {
            lemma_join_extend_last(prev, sep, s.last());
            assert(s.drop_last().push(s.last()) =~= s);
        }
    }
}

/// Text without a separator is a single piece.
proof fn lemma_split_plain(t: Seq<char>, sep: char)
    requires
        !t.contains(sep),
    ensures
        split(t, sep) == seq![t],
    decreases t.len(),
{
    if t.len() == 0 {
        assert(t =~= Seq::<char>::empty());
        assert(split(t, sep) =~= seq![t]);
    } else {
        assert(!t.drop_last().contains(sep)) by {
            if t.drop_last().contains(sep) {
                let k = choose|k: int| 0 <= k < t.drop_last().len() && t.drop_last()[k] == sep;
                assert(t[k] == sep);
            }
        }
        lemma_split_plain(t.drop_last(), sep);
        assert(t.last() != sep) by {
            if t.last() == sep {
                assert(t[t.len() - 1] == sep);
                assert(t.contains(sep));
            }
        }
        assert(t.drop_last().push(t.last()) =~= t);
        assert(split(t, sep) =~= seq![t]);
    }
}

/// A separator followed by text without one starts a new, last piece.
proof fn lemma_split_after_sep(a: Seq<char>, b: Seq<char>, sep: char)
    requires
        !b.contains(sep),
    ensures
        split(a + seq![sep] + b, sep) == split(a, sep).push(b),
    decreases b.len(),
{
    let s = a + seq![sep] + b;
    if b.len() == 0 {
        assert(b =~= Seq::<char>::empty());
        assert(s.drop_last() =~= a);
        assert(s.last() == sep);
        assert(split(s, sep) =~= split(a, sep).push(b));
    } else {
        let b1 = b.drop_last();
        assert(!b1.contains(sep)) by {
            if b1.contains(sep) {
                let k = choose|k: int| 0 <= k < b1.len() && b1[k] == sep;
                assert(b[k] == sep);
            }
        }
        lemma_split_after_sep(a, b1, sep);
        assert(s.drop_last() =~= a + seq![sep] + b1);
        assert(s.last() == b[b.len() - 1]);
        assert(s.last() != sep);
        let prev = split(a, sep).push(b1);
        assert(split(s, sep) == prev.update(prev.len() - 1, prev.last().push(s.last())));
        assert(b1.push(s.last()) =~= b);
        assert(split(s, sep) =~= split(a, sep).push(b));
    }
}

/// Splitting the joined pieces gives the pieces back, where there is at least one and none
/// holds the separator.
pub proof fn lemma_split_join(segs: Seq<Seq<char>>, sep: char)
    requires
        segs.len() >= 1,
        forall|i: int| 0 <= i < segs.len() ==> !(#[trigger] segs[i]).contains(sep),
    ensures
        split(join(segs, sep), sep) == segs,
    decreases segs.len(),
{
    if segs.len() == 1 {
        lemma_split_plain(segs[0], sep);
        assert(split(join(segs, sep), sep) =~= segs);
    } else {
        let init = segs.drop_last();
        assert forall|i: int| 0 <= i < init.len() implies !(#[trigger] init[i]).contains(sep) by {
            assert(init[i] == segs[i]);
        }
        lemma_split_join(init, sep);
        assert(!segs.last().contains(sep)) by {
            assert(segs[segs.len() - 1] == segs.last());
        }
        lemma_split_after_sep(join(init, sep), segs.last(), sep);
        assert(init.push(segs.last()) =~= segs);
    }
}

/// A page of the app, as its path names it.
pub enum AppRoute {
    SocialPage {},
    MessagePage {},
    MyPage {},
    SettingPage {},
    PasswordPage {},
    ConversationPage { user_did: String, conversation_id: String },
    PostPage { user_handle: String, record_key: String },
    LoginPage {},
    SignupPage {},
    ProfilePage { user_handle: String },
    PdsUsersManagementPage { pds_domain: String },
    PdsPage {},
    /// A path that names no page, by its segments.
    PageNotFound { route: Vec<String> },
}

/// A page with its texts.
pub enum RouteView {
    SocialPage,
    MessagePage,
    MyPage,
    SettingPage,
    PasswordPage,
    ConversationPage { user_did: Seq<char>, conversation_id: Seq<char> },
    PostPage { user_handle: Seq<char>, record_key: Seq<char> },
    LoginPage,
    SignupPage,
    ProfilePage { user_handle: Seq<char> },
    PdsUsersManagementPage { pds_domain: Seq<char> },
    PdsPage,
    PageNotFound { route: Seq<Seq<char>> },
}

impl View for AppRoute {
    type V = RouteView;

    open spec fn view(&self) -> RouteView {
        match self {
            AppRoute::SocialPage {} => RouteView::SocialPage,
            AppRoute::MessagePage {} => RouteView::MessagePage,
            AppRoute::MyPage {} => RouteView::MyPage,
            AppRoute::SettingPage {} => RouteView::SettingPage,
            AppRoute::PasswordPage {} => RouteView::PasswordPage,
            AppRoute::ConversationPage { user_did, conversation_id } => RouteView::ConversationPage {
                user_did: user_did@,
                conversation_id: conversation_id@,
            },
            AppRoute::PostPage { user_handle, record_key } => RouteView::PostPage {
                user_handle: user_handle@,
                record_key: record_key@,
            },
            AppRoute::LoginPage {} => RouteView::LoginPage,
            AppRoute::SignupPage {} => RouteView::SignupPage,
            AppRoute::ProfilePage { user_handle } => RouteView::ProfilePage {
                user_handle: user_handle@,
            },
            AppRoute::PdsUsersManagementPage { pds_domain } => RouteView::PdsUsersManagementPage {
                pds_domain: pds_domain@,
            },
            AppRoute::PdsPage {} => RouteView::PdsPage,
            AppRoute::PageNotFound { route } => RouteView::PageNotFound { route: texts(route@) },
        }
    }
}

/// The segments of the path of a page.
pub open spec fn route_segments(r: RouteView) -> Seq<Seq<char>> {
    match r {
        RouteView::SocialPage => Seq::<Seq<char>>::empty(),
        RouteView::MessagePage => seq!["messages"@],
        RouteView::MyPage => seq!["my"@],
        RouteView::SettingPage => seq!["setting"@],
        RouteView::PasswordPage => seq!["setting"@, "password"@],
        RouteView::ConversationPage { user_did, conversation_id } => seq![
            "conversation"@,
            user_did,
            conversation_id,
        ],
        RouteView::PostPage { user_handle, record_key } => seq![
            "user"@,
            user_handle,
            "bsky.app"@,
            "post"@,
            record_key,
        ],
        RouteView::LoginPage => seq!["login"@],
        RouteView::SignupPage => seq!["signup"@],
        RouteView::ProfilePage { user_handle } => seq!["profile"@, user_handle],
        RouteView::PdsUsersManagementPage { pds_domain } => seq!["pds"@, pds_domain, "users"@],
        RouteView::PdsPage => seq!["pds"@],
        RouteView::PageNotFound { route } => route,
    }
}

/// The path of a page: `/` and its segments, separated by `/`.
pub open spec fn route_path(r: RouteView) -> Seq<char> {
    "/"@ + join(route_segments(r), '/')
}

/// The page that path segments name: `/`, `/messages`, `/my`, `/setting`,
/// `/setting/password`, `/conversation/:user_did/:conversation_id` (a DID),
/// `/user/:user_handle/bsky.app/post/:record_key` (a handle), `/login`, `/signup`,
/// `/profile/:user_handle` (a handle), `/pds/:pds_domain/users` and `/pds`; any other
/// segments name no page.
pub open spec fn route_of(segs: Seq<Seq<char>>) -> RouteView {
    if segs.len() == 0 {
        RouteView::SocialPage
    } else if segs.len() == 1 {
        if segs[0] == "messages"@ {
            RouteView::MessagePage
        } else if segs[0] == "my"@ {
            RouteView::MyPage
        } else if segs[0] == "setting"@ {
            RouteView::SettingPage
        } else if segs[0] == "login"@ {
            RouteView::LoginPage
        } else if segs[0] == "signup"@ {
            RouteView::SignupPage
        } else if segs[0] == "pds"@ {
            RouteView::PdsPage
        } else {
            RouteView::PageNotFound { route: segs }
        }
    } else if segs.len() == 2 {
        if segs[0] == "setting"@ && segs[1] == "password"@ {
            RouteView::PasswordPage
        } else if segs[0] == "profile"@ && is_valid_handle(segs[1]) {
            RouteView::ProfilePage { user_handle: segs[1] }
        } else {
            RouteView::PageNotFound { route: segs }
        }
    } else if segs.len() == 3 {
        if segs[0] == "conversation"@ && is_valid_did(segs[1]) {
            RouteView::ConversationPage { user_did: segs[1], conversation_id: segs[2] }
        } else if segs[0] == "pds"@ && segs[2] == "users"@ {
            RouteView::PdsUsersManagementPage { pds_domain: segs[1] }
        } else {
            RouteView::PageNotFound { route: segs }
        }
    } else if segs.len() == 5 && segs[0] == "user"@ && is_valid_handle(segs[1]) && segs[2]
        == "bsky.app"@ && segs[3] == "post"@ {
        RouteView::PostPage { user_handle: segs[1], record_key: segs[4] }
    } else {
        RouteView::PageNotFound { route: segs }
    }
}

/// The page that the path `p` names.
pub open spec fn parse_route(p: Seq<char>) -> RouteView {
    route_of(path_segments(p))
}

/// `s` holds no `/`.
pub open spec fn no_slash(s: Seq<char>) -> bool {
    !s.contains('/')
}

/// A page that its path names again: identifiers that are valid, free texts without a `/`,
/// and, for a path that names no page, segments that name none either and are not the single
/// empty segment of `/`.
pub open spec fn is_addressable(r: RouteView) -> bool {
    match r {
        RouteView::ConversationPage { user_did, conversation_id } => is_valid_did(user_did)
            && no_slash(conversation_id),
        RouteView::PostPage { user_handle, record_key } => is_valid_handle(user_handle)
            && no_slash(record_key),
        RouteView::ProfilePage { user_handle } => is_valid_handle(user_handle),
        RouteView::PdsUsersManagementPage { pds_domain } => no_slash(pds_domain),
        RouteView::PageNotFound { route } => {
            &&& route_of(route) == r
            &&& route.len() >= 1
            &&& !(route.len() == 1 && route[0].len() == 0)
            &&& forall|i: int| 0 <= i < route.len() ==> no_slash(#[trigger] route[i])
        },
        _ => true,
    }
}

/// What is known of the names of the pages: they differ, none is empty, none holds a `/`.
proof fn lemma_page_names()
    ensures
        "messages"@.len() == 8 && no_slash("messages"@),
        "my"@.len() == 2 && no_slash("my"@),
        "setting"@.len() == 7 && no_slash("setting"@) && "setting"@[0] == 's',
        "password"@.len() == 8 && no_slash("password"@),
        "login"@.len() == 5 && no_slash("login"@),
        "signup"@.len() == 6 && no_slash("signup"@),
        "pds"@.len() == 3 && no_slash("pds"@),
        "users"@.len() == 5 && no_slash("users"@),
        "profile"@.len() == 7 && no_slash("profile"@) && "profile"@[0] == 'p',
        "conversation"@.len() == 12 && no_slash("conversation"@),
        "user"@.len() == 4 && no_slash("user"@),
        "bsky.app"@.len() == 8 && no_slash("bsky.app"@),
        "post"@.len() == 4 && no_slash("post"@),
        "/"@ == seq!['/'],
{
    reveal_strlit("messages");
    reveal_strlit("my");
    reveal_strlit("setting");
    reveal_strlit("password");
    reveal_strlit("login");
    reveal_strlit("signup");
    reveal_strlit("pds");
    reveal_strlit("users");
    reveal_strlit("profile");
    reveal_strlit("conversation");
    reveal_strlit("user");
    reveal_strlit("bsky.app");
    reveal_strlit("post");
    reveal_strlit("/");
    assert("/"@ =~= seq!['/']);
}

/// A valid DID holds no `/`.
proof fn lemma_did_no_slash(s: Seq<char>)
    requires
        is_valid_did(s),
    ensures
        no_slash(s),
{
    let k = choose|k: int| did_syntax_at(s, k);
    assert forall|i: int| 0 <= i < s.len() implies s[i] != '/' by {
        if 4 <= i < k {
            assert(is_lower(s[i]));
        } else if k < i {
            assert(is_did_char(s[i]));
        }
    }
}

/// A valid handle holds no `/`.
proof fn lemma_handle_no_slash(s: Seq<char>)
    requires
        is_valid_handle(s),
    ensures
        no_slash(s),
{
    assert forall|i: int| 0 <= i < s.len() implies s[i] != '/' by {
        assert(is_label_char(s[i]) || s[i] == '.');
    }
}

/// The page that a path's segments name is written with those very segments.
proof fn lemma_segments_of_route(segs: Seq<Seq<char>>)
    ensures
        route_segments(route_of(segs)) == segs,
{
    if segs.len() == 1 {
        assert(route_segments(route_of(segs)) =~= segs);
    } else if segs.len() == 2 {
        assert(route_segments(route_of(segs)) =~= segs);
    } else if segs.len() == 3 {
        assert(route_segments(route_of(segs)) =~= segs);
    } else if segs.len() == 5 {
        assert(route_segments(route_of(segs)) =~= segs);
    } else if segs.len() == 0 {
        assert(route_segments(route_of(segs)) =~= segs);
    }
}

/// Reading a path and writing the page it names gives the path back: every path that starts
/// with `/` is the path of the page it is read as.
pub proof fn lemma_path_of_parsed(p: Seq<char>)
    requires
        p.len() > 0,
        p[0] == '/',
    ensures
        route_path(parse_route(p)) == p,
{
    lemma_page_names();
    let rest = p.drop_first();
    lemma_segments_of_route(path_segments(p));
    if rest.len() == 0 {
        assert(p =~= seq!['/']);
        assert(route_path(parse_route(p)) =~= p);
    } else {
        lemma_join_split(rest, '/');
        assert(route_path(parse_route(p)) =~= p);
    }
}

/// Writing an addressable page as a path and reading the path gives the page back.
pub proof fn lemma_parsed_path(r: RouteView)
    requires
        is_addressable(r),
    ensures
        parse_route(route_path(r)) == r,
{
    lemma_page_names();
    let segs = route_segments(r);
    let p = route_path(r);
    assert(p.drop_first() =~= join(segs, '/'));
    assert(p[0] == '/');
    match r {
        RouteView::SocialPage => {
            assert(path_segments(p) =~= Seq::<Seq<char>>::empty());
        },
        _ => {
            match r {
                RouteView::ConversationPage { user_did, .. } => lemma_did_no_slash(user_did),
                RouteView::PostPage { user_handle, .. } => lemma_handle_no_slash(user_handle),
                RouteView::ProfilePage { user_handle } => lemma_handle_no_slash(user_handle),
                _ => {},
            }
            assert(segs.len() >= 1);
            assert forall|i: int| 0 <= i < segs.len() implies !(#[trigger] segs[i]).contains('/') by {
                assert(no_slash(segs[i]));
            }
            lemma_split_join(segs, '/');
            assert(join(segs, '/').len() > 0) by {
                if segs.len() >= 2 {
                    assert(join(segs, '/') == join(segs.drop_last(), '/') + seq!['/'] + segs.last());
                } else {
                    assert(segs[0].len() > 0);
                }
            }
            assert(path_segments(p) == segs);
        },
    }
    assert(route_of(segs) == r);
}

/// The segments of the path `path`.
pub fn segments_of_path(path: &str) -> (r: Vec<String>)
    ensures
        texts(r@) == path_segments(path@),
{
    let v = chars_of(path);
    let n = v.len();
    let start: usize = if n > 0 && v[0] == '/' {
        1
    } else {
        0
    };
    let ghost rest = path@.subrange(start as int, n as int);
    proof {
        if start == 1 {
            assert(rest =~= path@.drop_first());
        } else {
            assert(rest =~= path@);
        }
    }
    let mut r: Vec<String> = Vec::new();
    if start == n {
        assert(texts(r@) =~= path_segments(path@));
        return r;
    }
    let mut seg_start: usize = start;
    let mut i: usize = start;
    assert(path@.subrange(start as int, start as int) =~= Seq::<char>::empty());
    assert(texts(r@).push(path@.subrange(start as int, start as int)) =~= split(
        Seq::<char>::empty(),
        '/',
    ));
    while i < n
        invariant
            v@ == path@,
            n == v.len(),
            start <= seg_start <= i <= n,
            rest == path@.subrange(start as int, n as int),
            texts(r@).push(path@.subrange(seg_start as int, i as int)) == split(
                path@.subrange(start as int, i as int),
                '/',
            ),
        decreases n - i,
    {
        let ghost before = path@.subrange(start as int, i as int);
        let ghost after = path@.subrange(start as int, i + 1);
        assert(after.drop_last() =~= before);
        assert(after.last() == v@[i as int]);
        if v[i] == '/' {
            let seg = path.substring_char(seg_start, i).to_owned();
            r.push(seg);
            assert(path@.subrange(i + 1, i + 1) =~= Seq::<char>::empty());
            assert(texts(r@).push(path@.subrange(i + 1, i + 1)) =~= split(after, '/'));
            seg_start = i + 1;
        } else {
            let ghost prev = texts(r@).push(path@.subrange(seg_start as int, i as int));
            assert(path@.subrange(seg_start as int, i as int).push(v@[i as int]) =~= path@.subrange(
                seg_start as int,
                i + 1,
            ));
            assert(prev.update(prev.len() - 1, prev.last().push(v@[i as int])) =~= texts(r@).push(
                path@.subrange(seg_start as int, i + 1),
            ));
        }
        i = i + 1;
    }
    let last = path.substring_char(seg_start, n).to_owned();
    r.push(last);
    assert(texts(r@) =~= split(rest, '/'));
    r
}

/// Whether `s` is a DID that `atrium_api` accepts.
fn is_did(s: &str) -> (b: bool)
    ensures
        b == is_valid_did(s@),
{
    match parse_did(s) {
        Ok(_) => true,
        Err(_) => false,
    }
}

/// Whether `s` is a handle that `atrium_api` accepts.
fn is_handle(s: &str) -> (b: bool)
    ensures
        b == is_valid_handle(s@),
{
    match parse_handle(s) {
        Ok(_) => true,
        Err(_) => false,
    }
}

/// One piece joins to itself.
proof fn lemma_join_one(a: Seq<char>)
    ensures
        join(seq![a], '/') == a,
{
}

/// Adding a piece to at least one adds a separator and the piece.
proof fn lemma_join_push(segs: Seq<Seq<char>>, x: Seq<char>)
    requires
        segs.len() >= 1,
    ensures
        join(segs.push(x), '/') == join(segs, '/') + seq!['/'] + x,
{
    assert(segs.push(x).drop_last() =~= segs);
}

impl AppRoute {
    /// The page that `path` names (see `route_of`); a path that names none is "not found",
    /// with its segments.
    pub fn from_path(path: &str) -> (r: AppRoute)
        ensures
            r@ == parse_route(path@),
    {
        let segs = segments_of_path(path);
        let ghost sv = texts(segs@);
        let n = segs.len();
        if n == 0 {
            AppRoute::SocialPage {}
        } else if n == 1 {
            assert(sv[0] == segs@[0]@);
            if str_eq(segs[0].as_str(), "messages") {
                AppRoute::MessagePage {}
            } else if str_eq(segs[0].as_str(), "my") {
                AppRoute::MyPage {}
            } else if str_eq(segs[0].as_str(), "setting") {
                AppRoute::SettingPage {}
            } else if str_eq(segs[0].as_str(), "login") {
                AppRoute::LoginPage {}
            } else if str_eq(segs[0].as_str(), "signup") {
                AppRoute::SignupPage {}
            } else if str_eq(segs[0].as_str(), "pds") {
                AppRoute::PdsPage {}
            } else {
                AppRoute::PageNotFound { route: segs }
            }
        } else if n == 2 {
            assert(sv[0] == segs@[0]@ && sv[1] == segs@[1]@);
            if str_eq(segs[0].as_str(), "setting") && str_eq(segs[1].as_str(), "password") {
                AppRoute::PasswordPage {}
            } else if str_eq(segs[0].as_str(), "profile") && is_handle(segs[1].as_str()) {
                AppRoute::ProfilePage { user_handle: segs[1].clone() }
            } else {
                AppRoute::PageNotFound { route: segs }
            }
        } else if n == 3 {
            assert(sv[0] == segs@[0]@ && sv[1] == segs@[1]@ && sv[2] == segs@[2]@);
            if str_eq(segs[0].as_str(), "conversation") && is_did(segs[1].as_str()) {
                AppRoute::ConversationPage {
                    user_did: segs[1].clone(),
                    conversation_id: segs[2].clone(),
                }
            } else if str_eq(segs[0].as_str(), "pds") && str_eq(segs[2].as_str(), "users") {
                AppRoute::PdsUsersManagementPage { pds_domain: segs[1].clone() }
            } else {
                AppRoute::PageNotFound { route: segs }
            }
        } else if n == 5 && str_eq(segs[0].as_str(), "user") && is_handle(segs[1].as_str())
            && str_eq(segs[2].as_str(), "bsky.app") && str_eq(segs[3].as_str(), "post") {
            assert(sv[0] == segs@[0]@ && sv[1] == segs@[1]@ && sv[2] == segs@[2]@);
            assert(sv[3] == segs@[3]@ && sv[4] == segs@[4]@);
            AppRoute::PostPage { user_handle: segs[1].clone(), record_key: segs[4].clone() }
        } else {
            proof {
                if n == 5 {
                    assert(sv[0] == segs@[0]@ && sv[1] == segs@[1]@ && sv[2] == segs@[2]@);
                    assert(sv[3] == segs@[3]@);
                }
            }
            AppRoute::PageNotFound { route: segs }
        }
    }

    /// The path of this page: `/` and its segments, separated by `/`.
    pub fn path(&self) -> (r: String)
        ensures
            r@ == route_path(self@),
    {
        proof {
            lemma_page_names();
        }
        let mut r = "/".to_owned();
        match self {
            AppRoute::SocialPage {} => {
                assert(r@ =~= route_path(self@));
            },
            AppRoute::MessagePage {} => {
                r.append("messages");
                proof {
                    lemma_join_one("messages"@);
                }
            },
            AppRoute::MyPage {} => {
                r.append("my");
                proof {
                    lemma_join_one("my"@);
                }
            },
            AppRoute::SettingPage {} => {
                r.append("setting");
                proof {
                    lemma_join_one("setting"@);
                }
            },
            AppRoute::PasswordPage {} => {
                r.append("setting");
                r.append("/");
                r.append("password");
                proof {
                    lemma_join_one("setting"@);
                    lemma_join_push(seq!["setting"@], "password"@);
                    assert(seq!["setting"@].push("password"@) =~= seq!["setting"@, "password"@]);
                }
            },
            AppRoute::ConversationPage { user_did, conversation_id } => {
                r.append("conversation");
                r.append("/");
                r.append(user_did.as_str());
                r.append("/");
                r.append(conversation_id.as_str());
                proof {
                    lemma_join_one("conversation"@);
                    lemma_join_push(seq!["conversation"@], user_did@);
                    assert(seq!["conversation"@].push(user_did@) =~= seq!["conversation"@, user_did@]);
                    lemma_join_push(seq!["conversation"@, user_did@], conversation_id@);
                    assert(seq!["conversation"@, user_did@].push(conversation_id@) =~= seq!["conversation"@, user_did@, conversation_id@]);
                }
            },
            AppRoute::PostPage { user_handle, record_key } => {
                r.append("user");
                r.append("/");
                r.append(user_handle.as_str());
                r.append("/");
                r.append("bsky.app");
                r.append("/");
                r.append("post");
                r.append("/");
                r.append(record_key.as_str());
                proof {
                    lemma_join_one("user"@);
                    lemma_join_push(seq!["user"@], user_handle@);
                    assert(seq!["user"@].push(user_handle@) =~= seq!["user"@, user_handle@]);
                    lemma_join_push(seq!["user"@, user_handle@], "bsky.app"@);
                    assert(seq!["user"@, user_handle@].push("bsky.app"@) =~= seq!["user"@, user_handle@, "bsky.app"@]);
                    lemma_join_push(seq!["user"@, user_handle@, "bsky.app"@], "post"@);
                    assert(seq!["user"@, user_handle@, "bsky.app"@].push("post"@) =~= seq!["user"@, user_handle@, "bsky.app"@, "post"@]);
                    lemma_join_push(seq!["user"@, user_handle@, "bsky.app"@, "post"@], record_key@);
                    assert(seq!["user"@, user_handle@, "bsky.app"@, "post"@].push(record_key@) =~= seq!["user"@, user_handle@, "bsky.app"@, "post"@, record_key@]);
                }
            },
            AppRoute::LoginPage {} => {
                r.append("login");
                proof {
                    lemma_join_one("login"@);
                }
            },
            AppRoute::SignupPage {} => {
                r.append("signup");
                proof {
                    lemma_join_one("signup"@);
                }
            },
            AppRoute::ProfilePage { user_handle } => {
                r.append("profile");
                r.append("/");
                r.append(user_handle.as_str());
                proof {
                    lemma_join_one("profile"@);
                    lemma_join_push(seq!["profile"@], user_handle@);
                    assert(seq!["profile"@].push(user_handle@) =~= seq!["profile"@, user_handle@]);
                }
            },
            AppRoute::PdsUsersManagementPage { pds_domain } => {
                r.append("pds");
                r.append("/");
                r.append(pds_domain.as_str());
                r.append("/");
                r.append("users");
                proof {
                    lemma_join_one("pds"@);
                    lemma_join_push(seq!["pds"@], pds_domain@);
                    assert(seq!["pds"@].push(pds_domain@) =~= seq!["pds"@, pds_domain@]);
                    lemma_join_push(seq!["pds"@, pds_domain@], "users"@);
                    assert(seq!["pds"@, pds_domain@].push("users"@) =~= seq!["pds"@, pds_domain@, "users"@]);
                }
            },
            AppRoute::PdsPage {} => {
                r.append("pds");
                proof {
                    lemma_join_one("pds"@);
                }
            },
            AppRoute::PageNotFound { route } => {
                let ghost segs = texts(route@);
                let mut i: usize = 0;
                while i < route.len()
                    invariant
                        i <= route.len(),
                        segs == texts(route@),
                        "/"@ == seq!['/'],
                        r@ == "/"@ + join(segs.take(i as int), '/'),
                    decreases route.len() - i,
                {
                    if i > 0 {
                        r.append("/");
                    }
                    r.append(route[i].as_str());
                    proof {
                        let t = segs.take(i + 1);
                        assert(t.drop_last() =~= segs.take(i as int));
                        assert(t.last() == route@[i as int]@);
                        if i == 0 {
                            assert(join(t, '/') == t[0]);
                        }
                    }
                    i = i + 1;
                }
                assert(segs.take(route.len() as int) =~= segs);
            },
        }
        r
    }
}

/// The page of a post, as the post's view links to it: the author's handle, and the record
/// key of the post's URI (see `record_key_of_uri`).
pub fn post_page_of(user_handle: &str, uri: &str) -> (r: AppRoute)
    ensures
        r@ == (RouteView::PostPage {
            user_handle: user_handle@,
            record_key: before_first(after_last(uri@, '/'), '?'),
        }),
{
    AppRoute::PostPage { user_handle: user_handle.to_owned(), record_key: record_key_of_uri(uri).to_owned() }
}

/// The link from a post's view leads to that post's page: its path is read back as the same
/// page, wherever the author's handle is valid, whatever the post's URI.
pub proof fn lemma_post_link_leads_back(user_handle: Seq<char>, uri: Seq<char>)
    requires
        is_valid_handle(user_handle),
    ensures
        ({
            let page = RouteView::PostPage {
                user_handle,
                record_key: before_first(after_last(uri, '/'), '?'),
            };
            parse_route(route_path(page)) == page
        }),
{
    lemma_last_segment_plain(uri, '/', '?');
    lemma_parsed_path(
        RouteView::PostPage { user_handle, record_key: before_first(after_last(uri, '/'), '?') },
    );
}

} // verus!
