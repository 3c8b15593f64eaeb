//! Records and posts: record keys from AT URIs, post URIs, and the root of a reply thread.
use vstd::prelude::*;

use crate::strings::{
    after_last_char, chars_of, first_index, last_index, lemma_first_index, lemma_first_index_bounds,
    lemma_last_index_bounds,
};

verus! {

/// A kind of record that can be written to a repository, named by the NSID of its collection.
pub trait Record {
    /// The NSID of the record's collection.
    const NSID: &'static str;
}

/// A post (`app.bsky.feed.post`).
pub struct PostRecord;

impl Record for PostRecord {
    const NSID: &'static str = "app.bsky.feed.post";
}

/// The part of `s` after its last `sep` (all of `s` where there is none).
pub open spec fn after_last(s: Seq<char>, sep: char) -> Seq<char> {
    s.subrange(last_index(s, sep) + 1, s.len() as int)
}

/// The part of `s` before its first `stop` (all of `s` where there is none).
pub open spec fn before_first(s: Seq<char>, stop: char) -> Seq<char> {
    if first_index(s, stop) < 0 {
        s
    } else {
        s.take(first_index(s, stop))
    }
}

/// The last segment of `s`, cut at its first `stop`, holds neither `sep` nor `stop`.
pub proof fn lemma_last_segment_plain(s: Seq<char>, sep: char, stop: char)
    ensures
        !before_first(after_last(s, sep), stop).contains(sep),
        !before_first(after_last(s, sep), stop).contains(stop),
{
    lemma_last_index_bounds(s, sep);
    let tail = after_last(s, sep);
    lemma_first_index_bounds(tail, stop);
    let seg = before_first(tail, stop);
    assert forall|i: int| 0 <= i < seg.len() implies seg[i] != sep && seg[i] != stop by {
        assert(seg[i] == tail[i]);
        assert(tail[i] == s[last_index(s, sep) + 1 + i]);
    }
}

/// The last `sep`-separated segment of `s`, cut at its first `stop`.
fn last_segment_until(s: &str, sep: char, stop: char) -> (r: &str)
    ensures
        r@ == before_first(after_last(s@, sep), stop),
        !r@.contains(sep),
        !r@.contains(stop),
{
    let v = chars_of(s);
    let a = after_last_char(&v, sep);
    let ghost tail = s@.subrange(a as int, v.len() as int);
    let mut b: usize = a;
    while b < v.len() && v[b] != stop
        invariant
            v@ == s@,
            a <= b <= v.len(),
            tail == s@.subrange(a as int, v.len() as int),
            forall|i: int| a <= i < b ==> v@[i] != stop,
        decreases v.len() - b,
    {
        b = b + 1;
    }
    proof {
        assert forall|i: int| 0 <= i < b - a implies tail[i] != stop by {
            assert(tail[i] == v@[a + i]);
        }
        if b < v.len() {
            assert(tail[b - a] == v@[b as int]);
        }
        lemma_first_index(tail, stop, (b - a) as int);
        assert(s@.subrange(a as int, b as int) =~= before_first(tail, stop));
        let seg = s@.subrange(a as int, b as int);
        assert forall|i: int| 0 <= i < seg.len() implies seg[i] != sep && seg[i] != stop by {
            assert(seg[i] == v@[a + i]);
        }
    }
    s.substring_char(a, b)
}

/// The record key of an AT URI: the text after its last `/`, up to the first `#`; it holds
/// neither.
pub fn aturi2rkey(aturi: &str) -> (r: Option<&str>)
    ensures
        r matches Some(k) && k@ == before_first(after_last(aturi@, '/'), '#'),
        r matches Some(k) && !k@.contains('/') && !k@.contains('#'),
{
    Some(last_segment_until(aturi, '/', '#'))
}

/// The record key that a post's page is addressed by: the text after the URI's last `/`, up to
/// the first `?`; it holds neither, so it stands as one segment of the page's path.
pub fn record_key_of_uri(uri: &str) -> (r: &str)
    ensures
        r@ == before_first(after_last(uri@, '/'), '?'),
        !r@.contains('/') && !r@.contains('?'),
{
    last_segment_until(uri, '/', '?')
}

/// `at://{handle}/app.bsky.feed.post/{record_key}`.
pub open spec fn post_uri_spec(handle: Seq<char>, record_key: Seq<char>) -> Seq<char> {
    "at://"@ + handle + "/app.bsky.feed.post/"@ + record_key
}

/// The AT URI of the post `record_key` of the account `handle`.
pub fn post_uri(handle: &str, record_key: &str) -> (r: String)
    ensures
        r@ == post_uri_spec(handle@, record_key@),
{
    let mut r = "at://".to_owned();
    r.append(handle);
    r.append("/app.bsky.feed.post/");
    r.append(record_key);
    r
}

/// A reference to one version of a record: its CID and URI.
pub struct StrongRef {
    pub cid: String,
    pub uri: String,
}

/// A post in a thread, with the post it replies to, where that post could be loaded.
pub struct ThreadPost {
    pub cid: String,
    pub uri: String,
    pub parent: Option<Box<ThreadPost>>,
}

/// The CID and URI of the first post of the thread that `post` belongs to: following the
/// parents up until a post without one.
pub open spec fn root_of(post: ThreadPost) -> (Seq<char>, Seq<char>)
    decreases post,
{
    match post.parent {
        Some(parent) => root_of(*parent),
        None => (post.cid@, post.uri@),
    }
}

/// The root of the thread of `post`.
pub fn get_root(post: &ThreadPost) -> (r: StrongRef)
    ensures
        (r.cid@, r.uri@) == root_of(*post),
    decreases post,
{
    match &post.parent {
        Some(parent) => get_root(parent),
        None => StrongRef { cid: post.cid.clone(), uri: post.uri.clone() },
    }
}

/// What a reply to a post refers to: the post itself as its parent, and the thread's root.
pub struct ReplyRef {
    pub parent: StrongRef,
    pub root: StrongRef,
}

/// The references of a reply to `post`.
pub fn reply_ref(post: &ThreadPost) -> (r: ReplyRef)
    ensures
        r.parent.cid@ == post.cid@,
        r.parent.uri@ == post.uri@,
        (r.root.cid@, r.root.uri@) == root_of(*post),
{
    ReplyRef {
        parent: StrongRef { cid: post.cid.clone(), uri: post.uri.clone() },
        root: get_root(post),
    }
}

/// What a reply written on a post's page refers to: nothing where the device holds no
/// session or the thread's post could not be loaded; otherwise the post and the thread's root.
pub fn reply_data(session_count: usize, thread: Option<&ThreadPost>) -> (r: Option<ReplyRef>)
    ensures
        session_count == 0 ==> r is None,
        thread is None ==> r is None,
        session_count > 0 ==> match thread {
            Some(post) => r matches Some(reply) && reply.parent.cid@ == post.cid@
                && reply.parent.uri@ == post.uri@ && (reply.root.cid@, reply.root.uri@) == root_of(
                *post,
            ),
            None => r is None,
        },
{
    if session_count == 0 {
        return None;
    }
    match thread {
        Some(post) => Some(reply_ref(post)),
        None => None,
    }
}

/// What an entry of a post thread is: a post of the thread, a post that was not found, a post
/// that is blocked, or an entry of a kind this client does not know.
#[derive(Clone, Copy, PartialEq, Eq, Structural)]
pub enum ThreadEntry {
    Post,
    NotFound,
    Blocked,
    Unknown,
}

/// The positions of the entries that are posts, in order.
pub open spec fn post_positions(entries: Seq<ThreadEntry>) -> Seq<int>
    decreases entries.len(),
{
    if entries.len() == 0 {
        Seq::empty()
    } else {
        let rest = post_positions(entries.drop_last());
        if entries.last() == ThreadEntry::Post {
            rest.push(entries.len() - 1)
        } else {
            rest
        }
    }
}

/// The positions of the posts among thread entries are exactly the positions that hold a post,
/// each once, in increasing order: no post is left out and nothing else is listed.
pub proof fn lemma_post_positions_exact(entries: Seq<ThreadEntry>)
    ensures
        forall|k: int|
            0 <= k < post_positions(entries).len() ==> 0 <= #[trigger] post_positions(entries)[k]
                < entries.len() && entries[post_positions(entries)[k]] == ThreadEntry::Post,
        forall|i: int|
            0 <= i < entries.len() && #[trigger] entries[i] == ThreadEntry::Post ==> exists|k: int|
                0 <= k < post_positions(entries).len() && post_positions(entries)[k] == i,
        forall|a: int, b: int|
            0 <= a < b < post_positions(entries).len() ==> post_positions(entries)[a]
                < post_positions(entries)[b],
    decreases entries.len(),
{
    if entries.len() > 0 {
        let init = entries.drop_last();
        lemma_post_positions_exact(init);
        let rest = post_positions(init);
        let n = entries.len() - 1;
        assert forall|k: int| 0 <= k < rest.len() implies rest[k] < n && entries[rest[k]]
            == ThreadEntry::Post by {
            assert(init[rest[k]] == entries[rest[k]]);
        }
        assert forall|i: int|
            0 <= i < entries.len() && #[trigger] entries[i] == ThreadEntry::Post implies exists|k: int|
                0 <= k < post_positions(entries).len() && post_positions(entries)[k] == i by {
            if i < n {
                assert(init[i] == entries[i]);
                let k = choose|k: int| 0 <= k < rest.len() && rest[k] == i;
                assert(post_positions(entries)[k] == i);
            } else {
                assert(entries.last() == entries[i]);
                assert(post_positions(entries)[rest.len() as int] == i);
            }
        }
    }
}

/// The replies that a post's page shows under the post: those that are posts of the thread, in
/// the order the thread lists them, by their positions. Every position that holds a post is
/// listed, each once and in increasing order, and no other.
pub fn shown_replies(replies: &Vec<ThreadEntry>) -> (r: Vec<usize>)
    ensures
        r@.map_values(|i: usize| i as int) == post_positions(replies@),
        forall|k: int| 0 <= k < r.len() ==> r@[k] < replies.len() && replies@[r@[k] as int] == ThreadEntry::Post,
        forall|i: int|
            0 <= i < replies.len() && #[trigger] replies@[i] == ThreadEntry::Post ==> exists|k: int|
                0 <= k < r.len() && r@[k] == i,
        forall|a: int, b: int| 0 <= a < b < r.len() ==> r@[a] < r@[b],
{
    let mut r: Vec<usize> = Vec::new();
    let mut i: usize = 0;
    while i < replies.len()
        invariant
            i <= replies.len(),
            r@.map_values(|k: usize| k as int) == post_positions(replies@.take(i as int)),
        decreases replies.len() - i,
    {
        let ghost before = r@.map_values(|k: usize| k as int);
        assert(replies@.take(i + 1).drop_last() =~= replies@.take(i as int));
        assert(replies@.take(i + 1).last() == replies@[i as int]);
        if replies[i] == ThreadEntry::Post {
            r.push(i);
            assert(r@.map_values(|k: usize| k as int) =~= before.push(i as int));
        }
        i = i + 1;
    }
    assert(replies@.take(replies.len() as int) =~= replies@);
    proof {
        lemma_post_positions_exact(replies@);
        let pv = r@.map_values(|k: usize| k as int);
        assert forall|k: int| 0 <= k < r.len() implies r@[k] < replies.len() && replies@[r@[k] as int]
            == ThreadEntry::Post by {
            assert(pv[k] == r@[k] as int);
        }
        assert forall|i: int|
            0 <= i < replies.len() && #[trigger] replies@[i] == ThreadEntry::Post implies exists|k: int|
                0 <= k < r.len() && r@[k] == i by {
            let k = choose|k: int| 0 <= k < pv.len() && pv[k] == i;
            assert(r@[k] as int == pv[k]);
        }
        assert forall|a: int, b: int| 0 <= a < b < r.len() implies r@[a] < r@[b] by {
            assert(pv[a] == r@[a] as int && pv[b] == r@[b] as int);
        }
    }
    r
}

/// What a post's page shows in place of its thread where the thread's post is not a post:
/// `not_found`, `blocked`, or nothing for an entry of an unknown kind; nothing for a post.
pub fn thread_placeholder(entry: ThreadEntry) -> (r: &'static str)
    ensures
        entry == ThreadEntry::NotFound ==> r@ == "not_found"@,
        entry == ThreadEntry::Blocked ==> r@ == "blocked"@,
        entry == ThreadEntry::Post || entry == ThreadEntry::Unknown ==> r@ == ""@,
{
    match entry {
        ThreadEntry::NotFound => "not_found",
        ThreadEntry::Blocked => "blocked",
        _ => "",
    }
}

/// A reply belongs to the thread of the post it replies to: both have the same root.
pub proof fn lemma_reply_shares_root(post: ThreadPost, parent: ThreadPost)
    requires
        post.parent == Some(Box::new(parent)),
    ensures
        root_of(post) == root_of(parent),
{
}

/// A post that replies to nothing is the root of its own thread.
pub proof fn lemma_root_without_parent(post: ThreadPost)
    requires
        post.parent is None,
    ensures
        root_of(post) == (post.cid@, post.uri@),
{
}

} // verus!
