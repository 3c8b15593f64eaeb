//! XRPC endpoints: query strings, request URLs, and the agents that build them.
use std::marker::PhantomData;
use vstd::prelude::*;
use vstd::utf8::encode_utf8;

use crate::strings::{concat, digit_char, is_blank, is_blank_seq};

verus! {

/// A byte that `application/x-www-form-urlencoded` keeps as it is: `*-._`, digits and letters.
pub open spec fn is_unreserved_byte(b: u8) -> bool {
    ||| b == 0x2a
    ||| b == 0x2d
    ||| b == 0x2e
    ||| 0x30 <= b <= 0x39
    ||| 0x41 <= b <= 0x5a
    ||| b == 0x5f
    ||| 0x61 <= b <= 0x7a
}

/// The upper-case hexadecimal digit for `d` (0 to 15).
pub open spec fn hex_upper(d: int) -> char {
    if d < 10 {
        digit_char(d)
    } else if d == 10 {
        'A'
    } else if d == 11 {
        'B'
    } else if d == 12 {
        'C'
    } else if d == 13 {
        'D'
    } else if d == 14 {
        'E'
    } else {
        'F'
    }
}

/// How the form-urlencoded byte serializer writes one byte: unchanged, `+` for a space, or
/// `%XX` in upper-case hexadecimal.
pub open spec fn form_byte(b: u8) -> Seq<char> {
    if is_unreserved_byte(b) {
        seq![b as char]
    } else if b == 0x20 {
        seq!['+']
    } else {
        seq!['%', hex_upper((b / 16) as int), hex_upper((b % 16) as int)]
    }
}

/// The form-urlencoded serialization of a byte sequence.
pub open spec fn form_bytes(bytes: Seq<u8>) -> Seq<char>
    decreases bytes.len(),
{
    if bytes.len() == 0 {
        Seq::empty()
    } else {
        form_byte(bytes[0]) + form_bytes(bytes.drop_first())
    }
}

/// The form-urlencoded serialization of a text: of its UTF-8 bytes.
pub open spec fn form_encode(s: Seq<char>) -> Seq<char> {
    form_bytes(encode_utf8(s))
}

/// One `name=value` pair, both sides encoded.
pub open spec fn form_pair(p: (Seq<char>, Seq<char>)) -> Seq<char> {
    form_encode(p.0) + seq!['='] + form_encode(p.1)
}

/// Pairs encoded and joined with `&`, as `application/x-www-form-urlencoded` writes them.
pub open spec fn form_pairs(ps: Seq<(Seq<char>, Seq<char>)>) -> Seq<char>
    decreases ps.len(),
{
    if ps.len() == 0 {
        Seq::empty()
    } else if ps.len() == 1 {
        form_pair(ps[0])
    } else {
        form_pairs(ps.drop_last()) + seq!['&'] + form_pair(ps.last())
    }
}

/// A character that form-urlencoding keeps as it is: `*-._`, ASCII digits and letters.
pub open spec fn is_unreserved_char(c: char) -> bool {
    let u = c as u32;
    ||| u == 0x2a
    ||| u == 0x2d
    ||| u == 0x2e
    ||| 0x30 <= u <= 0x39
    ||| 0x41 <= u <= 0x5a
    ||| u == 0x5f
    ||| 0x61 <= u <= 0x7a
}

proof fn lemma_ascii_byte_char(c: char, b: u8)
    requires
        (c as u32) <= 0x7f,
        c as u8 == b,
    ensures
        (b as char) == c,
        c <= '\u{7f}',
{
}

proof fn lemma_form_bytes_unreserved(bytes: Seq<u8>, s: Seq<char>)
    requires
        bytes.len() == s.len(),
        forall|i: int| 0 <= i < s.len() ==> is_unreserved_char(#[trigger] s[i]) && s[i] as u8 == bytes[i],
    ensures
        form_bytes(bytes) == s,
    decreases bytes.len(),
{
    if bytes.len() > 0 {
        assert(is_unreserved_char(s[0]) && s[0] as u8 == bytes[0]);
        assert((s[0] as u32) <= 0x7a);
        lemma_ascii_byte_char(s[0], bytes[0]);
        lemma_form_bytes_unreserved(bytes.drop_first(), s.drop_first());
        assert(s =~= seq![s[0]] + s.drop_first());
    }
}

/// Text made of ASCII letters, digits and `*-._` passes form-urlencoding unchanged.
pub proof fn lemma_form_encode_unreserved(s: Seq<char>)
    requires
        forall|i: int| 0 <= i < s.len() ==> is_unreserved_char(#[trigger] s[i]),
    ensures
        form_encode(s) == s,
{
    assert(vstd::utf8::is_ascii_chars(s)) by {
        assert forall|i: int| 0 <= i < s.len() implies '\0' <= #[trigger] s[i] <= '\u{7f}' by {
            assert(is_unreserved_char(s[i]));
            assert((s[i] as u32) <= 0x7a);
            lemma_ascii_byte_char(s[i], s[i] as u8);
        }
    }
    vstd::utf8::is_ascii_chars_encode_utf8(s);
    lemma_form_bytes_unreserved(encode_utf8(s), s);
}

/// A parameter without a value leaves the query string as it was.
pub proof fn lemma_absent_param_ignored(ps: Seq<QueryParam>, p: QueryParam)
    requires
        p.value is None,
    ensures
        query_of(ps.push(p)) == query_of(ps),
{
    assert(params_view(ps.push(p)).drop_last() =~= params_view(ps));
}

/// The texts of a list of string pairs.
pub open spec fn pairs_view(ps: Seq<(String, String)>) -> Seq<(Seq<char>, Seq<char>)> {
    ps.map_values(|p: (String, String)| (p.0@, p.1@))
}

/// `serde_urlencoded::to_string` on a sequence of string pairs: never fails, and writes each
/// pair as `name=value`, both form-urlencoded, joined by `&`.
#[verifier::external_body]
fn urlencode_pairs(pairs: &Vec<(String, String)>) -> (r: Result<String, serde_urlencoded::ser::Error>)
    ensures
        r is Ok,
        r matches Ok(s) ==> s@ == form_pairs(pairs_view(pairs@)),
{
    serde_urlencoded::to_string(pairs)
}

#[verifier::external_type_specification]
#[verifier::external_body]
pub struct ExUrlencodedError(serde_urlencoded::ser::Error);

/// A query parameter of an XRPC call: its name, and its value where it has one.
pub struct QueryParam {
    pub name: String,
    pub value: Option<String>,
}

impl QueryParam {
    /// The parameter's name and, where present, its value, as texts.
    pub open spec fn view(&self) -> (Seq<char>, Option<Seq<char>>) {
        (
            self.name@,
            match self.value {
                Some(v) => Some(v@),
                None => None,
            },
        )
    }

    /// A parameter named `name` with the given value.
    pub fn new(name: &str, value: Option<String>) -> (r: QueryParam)
        ensures
            r.name@ == name@,
            r.value == value,
    {
        QueryParam { name: name.to_owned(), value }
    }
}

/// The texts of a list of parameters.
pub open spec fn params_view(ps: Seq<QueryParam>) -> Seq<(Seq<char>, Option<Seq<char>>)> {
    ps.map_values(|p: QueryParam| p.view())
}

/// The parameters that have a value, as `name`/`value` pairs, in order: parameters without a
/// value are left out of a query, as the endpoints' `skip_serializing_if` does.
pub open spec fn present_pairs(ps: Seq<(Seq<char>, Option<Seq<char>>)>) -> Seq<(Seq<char>, Seq<char>)>
    decreases ps.len(),
{
    if ps.len() == 0 {
        Seq::empty()
    } else {
        let rest = present_pairs(ps.drop_last());
        match ps.last().1 {
            Some(v) => rest.push((ps.last().0, v)),
            None => rest,
        }
    }
}

/// The query string of the parameters: the ones with a value, form-urlencoded.
pub open spec fn query_of(ps: Seq<QueryParam>) -> Seq<char> {
    form_pairs(present_pairs(params_view(ps)))
}

/// The name/value pairs of the parameters that have a value.
pub fn present_params(params: &Vec<QueryParam>) -> (r: Vec<(String, String)>)
    ensures
        pairs_view(r@) == present_pairs(params_view(params@)),
{
    let mut r: Vec<(String, String)> = Vec::new();
    let mut i: usize = 0;
    while i < params.len()
        invariant
            i <= params.len(),
            pairs_view(r@) == present_pairs(params_view(params@.take(i as int))),
        decreases params.len() - i,
    {
        let ghost before = r@;
        let p = &params[i];
        match &p.value {
            Some(v) => {
                r.push((p.name.clone(), v.clone()));
                assert(pairs_view(r@) =~= pairs_view(before).push((p.name@, v@)));
            },
            None => {},
        }
        assert(params_view(params@.take(i + 1)).drop_last() =~= params_view(params@.take(i as int)));
        i = i + 1;
    }
    assert(params@.take(params.len() as int) =~= params@);
    r
}

/// The query string of `params`: each parameter that has a value, as `name=value`,
/// form-urlencoded and joined with `&`.
pub fn query_string(params: &Vec<QueryParam>) -> (r: String)
    ensures
        r@ == query_of(params@),
{
    let pairs = present_params(params);
    match urlencode_pairs(&pairs) {
        Ok(s) => s,
        Err(_) => String::new(),
    }
}

/// `https://{host}/xrpc/{nsid}`.
pub open spec fn xrpc_url_spec(host: Seq<char>, nsid: Seq<char>) -> Seq<char> {
    "https://"@ + host + "/xrpc/"@ + nsid
}

/// The URL of the XRPC method `nsid` on `host`.
pub fn xrpc_url(host: &str, nsid: &str) -> (r: String)
    ensures
        r@ == xrpc_url_spec(host@, nsid@),
{
    let mut r = "https://".to_owned();
    r.append(host);
    r.append("/xrpc/");
    r.append(nsid);
    r
}

/// `url?query`.
pub fn with_query(url: String, query: &str) -> (r: String)
    ensures
        r@ == url@ + "?"@ + query@,
{
    let mut r = url;
    r.append("?");
    r.append(query);
    r
}

/// The URL of the XRPC method `nsid` on `host`, followed by `?` and the query string of
/// `params` (even where that is empty).
pub fn xrpc_url_with_query(host: &str, nsid: &str, params: &Vec<QueryParam>) -> (r: String)
    ensures
        r@ == xrpc_url_spec(host@, nsid@) + "?"@ + query_of(params@),
{
    let q = query_string(params);
    with_query(xrpc_url(host, nsid), q.as_str())
}

/// The URL of the XRPC method `nsid` on `host`, with `?` and the query string only where the
/// query string is not blank.
pub fn xrpc_url_unless_blank(host: &str, nsid: &str, params: &Vec<QueryParam>) -> (r: String)
    ensures
        is_blank_seq(query_of(params@)) ==> r@ == xrpc_url_spec(host@, nsid@),
        !is_blank_seq(query_of(params@)) ==> r@ == xrpc_url_spec(host@, nsid@) + "?"@
            + query_of(params@),
{
    let q = query_string(params);
    if is_blank(q.as_str()) {
        xrpc_url(host, nsid)
    } else {
        with_query(xrpc_url(host, nsid), q.as_str())
    }
}

/// The method that lists a PDS's invite codes.
pub open spec fn get_invite_codes_nsid() -> Seq<char> {
    "com.atproto.admin.getInviteCodes"@
}

/// The method that fetches a blob.
pub open spec fn get_blob_nsid() -> Seq<char> {
    "com.atproto.sync.getBlob"@
}

/// The host of the public Bluesky AppView.
pub open spec fn public_api_host() -> Seq<char> {
    "public.api.bsky.app"@
}

/// An agent for a PDS's administration endpoints, which authenticates as `admin` with the
/// PDS's admin password.
pub struct PdsAdminAgent {
    pub pds_site: String,
    pub token: String,
}

impl PdsAdminAgent {
    /// The URL of a call of `nsid` without parameters, by GET or by POST.
    pub fn url(&self, nsid: &str) -> (r: String)
        ensures
            r@ == xrpc_url_spec(self.pds_site@, nsid@),
    {
        xrpc_url(self.pds_site.as_str(), nsid)
    }

    /// The URL of a GET call of `nsid` with `params`.
    pub fn url_with_parameter(&self, nsid: &str, params: &Vec<QueryParam>) -> (r: String)
        ensures
            r@ == xrpc_url_spec(self.pds_site@, nsid@) + "?"@ + query_of(params@),
    {
        xrpc_url_with_query(self.pds_site.as_str(), nsid, params)
    }

    /// The URL that lists the invite codes: the query is left out where it is blank.
    pub fn invite_codes_url(&self, params: &Vec<QueryParam>) -> (r: String)
        ensures
            is_blank_seq(query_of(params@)) ==> r@ == xrpc_url_spec(
                self.pds_site@,
                get_invite_codes_nsid(),
            ),
            !is_blank_seq(query_of(params@)) ==> r@ == xrpc_url_spec(
                self.pds_site@,
                get_invite_codes_nsid(),
            ) + "?"@ + query_of(params@),
    {
        xrpc_url_unless_blank(self.pds_site.as_str(), "com.atproto.admin.getInviteCodes", params)
    }

    /// The user name and password of the HTTP basic authentication: `admin` and the token.
    pub fn basic_auth(&self) -> (r: (String, String))
        ensures
            r.0@ == "admin"@,
            r.1@ == self.token@,
    {
        ("admin".to_owned(), self.token.clone())
    }
}

/// A URL whose response is read in the format `O`.
pub struct Url<O>(pub String, pub PhantomData<O>);

impl<O> Url<O> {
    /// The URL `url`.
    pub fn new(url: String) -> (r: Url<O>)
        ensures
            r.0@ == url@,
    {
        Url(url, PhantomData)
    }
}

/// A response read as JSON into a `T`.
pub struct Json<T>(pub PhantomData<T>);

/// A response kept as raw bytes.
pub struct Blob;

/// An agent for the endpoints that need no session.
pub struct PublicAtAgent {
    pub endpoint: String,
}

impl PublicAtAgent {
    /// An agent for the service at `endpoint`.
    pub fn new(endpoint: String) -> (r: PublicAtAgent)
        ensures
            r.endpoint@ == endpoint@,
    {
        PublicAtAgent { endpoint }
    }

    /// An agent for the PDS that serves `handle`: `https://{handle}`.
    pub fn from_handle(handle: &str) -> (r: PublicAtAgent)
        ensures
            r.endpoint@ == "https://"@ + handle@,
    {
        PublicAtAgent { endpoint: concat("https://", handle) }
    }

    /// The URL of an AppView query: always on the public AppView, whatever the endpoint.
    pub fn app_view_url(&self, nsid: &str, params: &Vec<QueryParam>) -> (r: String)
        ensures
            r@ == xrpc_url_spec(public_api_host(), nsid@) + "?"@ + query_of(params@),
    {
        xrpc_url_with_query("public.api.bsky.app", nsid, params)
    }

    /// The URL that lists the repositories of the PDS at `pds_domain`.
    pub fn list_repos_url(&self, pds_domain: &str, nsid: &str, params: &Vec<QueryParam>) -> (r:
        String)
        ensures
            r@ == xrpc_url_spec(pds_domain@, nsid@) + "?"@ + query_of(params@),
    {
        xrpc_url_with_query(pds_domain, nsid, params)
    }

    /// The URL of the blob `cid` of the account `did`, on this agent's endpoint:
    /// `{endpoint}/xrpc/com.atproto.sync.getBlob?cid={cid}&did={did}`.
    pub fn com_atproto_sync_getBlob(&self, cid: &str, did: &str) -> (r: Url<Blob>)
        ensures
            r.0@ == self.endpoint@ + "/xrpc/"@ + get_blob_nsid() + "?"@ + form_pairs(
                seq![("cid"@, cid@), ("did"@, did@)],
            ),
    {
        let mut params: Vec<QueryParam> = Vec::new();
        params.push(QueryParam::new("cid", Some(cid.to_owned())));
        params.push(QueryParam::new("did", Some(did.to_owned())));
        let q = query_string(&params);
        proof {
            let pv = params_view(params@);
            assert(pv.len() == 2);
            assert(pv[0] == ("cid"@, Some(cid@)));
            assert(pv[1] == ("did"@, Some(did@)));
            assert(pv.drop_last().drop_last() =~= Seq::<(Seq<char>, Option<Seq<char>>)>::empty());
            reveal_with_fuel(present_pairs, 3);
            assert(present_pairs(pv) =~= seq![("cid"@, cid@), ("did"@, did@)]);
        }
        let mut url = self.endpoint.clone();
        url.append("/xrpc/");
        url.append("com.atproto.sync.getBlob");
        Url::new(with_query(url, q.as_str()))
    }
}

impl Default for PublicAtAgent {
    /// The public Bluesky AppView, `https://public.api.bsky.app`.
    fn default() -> (r: PublicAtAgent)
        ensures
            r.endpoint@ == "https://"@ + public_api_host(),
    {
        PublicAtAgent::from_handle("public.api.bsky.app")
    }
}

} // verus!
