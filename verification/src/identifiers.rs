//! AT Protocol identifiers: DIDs and handles, as `atrium_api` validates them, and the
//! library's `UserDid` with its order.
use atrium_api::types::string::{Did, Handle};
use vstd::prelude::*;
use vstd::utf8::encode_utf8;

use std::cmp::Ordering;
use vstd::std_specs::cmp::{PartialEqSpecImpl, PartialOrdSpecImpl};

use crate::strings::{last_index, str_eq};

verus! {

/// `c` is an ASCII lower-case letter.
pub open spec fn is_lower(c: char) -> bool {
    0x61 <= (c as u32) <= 0x7a
}

/// `c` is an ASCII letter.
pub open spec fn is_alpha(c: char) -> bool {
    is_lower(c) || 0x41 <= (c as u32) <= 0x5a
}

/// `c` is an ASCII digit.
pub open spec fn is_digit(c: char) -> bool {
    0x30 <= (c as u32) <= 0x39
}

/// `c` is an ASCII letter or digit.
pub open spec fn is_alnum(c: char) -> bool {
    is_alpha(c) || is_digit(c)
}

/// A character that may end a DID: `[a-zA-Z0-9._-]`.
pub open spec fn is_did_end_char(c: char) -> bool {
    is_alnum(c) || c == '.' || c == '_' || c == '-'
}

/// A character of the method-specific part of a DID: `[a-zA-Z0-9._:%-]`.
pub open spec fn is_did_char(c: char) -> bool {
    is_did_end_char(c) || c == ':' || c == '%'
}

/// `s` matches `^did:[a-z]+:[a-zA-Z0-9._:%-]*[a-zA-Z0-9._-]$`, where `k` is the position of
/// the colon that ends the method name.
pub open spec fn did_syntax_at(s: Seq<char>, k: int) -> bool {
    &&& s.len() > 4
    &&& s[0] == 'd' && s[1] == 'i' && s[2] == 'd' && s[3] == ':'
    &&& 4 < k < s.len() - 1
    &&& s[k] == ':'
    &&& forall|i: int| 4 <= i < k ==> is_lower(#[trigger] s[i])
    &&& forall|i: int| k < i < s.len() ==> is_did_char(#[trigger] s[i])
    &&& is_did_end_char(s.last())
}

/// `s` has the syntax of a DID.
pub open spec fn did_syntax(s: Seq<char>) -> bool {
    exists|k: int| did_syntax_at(s, k)
}

/// `s` is a DID that `atrium_api` accepts: at most 2048 bytes long, with DID syntax.
pub open spec fn is_valid_did(s: Seq<char>) -> bool {
    encode_utf8(s).len() <= 2048 && did_syntax(s)
}

/// The error that `atrium_api` gives for a rejected DID.
pub open spec fn did_error(s: Seq<char>) -> Seq<char> {
    if encode_utf8(s).len() > 2048 {
        "DID too long"@
    } else {
        "Invalid DID"@
    }
}

/// `atrium_api::types::string::Did::new`: accepts exactly the DIDs of at most 2048 bytes that
/// match the DID pattern, keeps the text, and otherwise gives "DID too long" or "Invalid DID".
#[verifier::external_body]
fn atrium_did_new(s: String) -> (r: Result<String, String>)
    ensures
        r is Ok <==> is_valid_did(s@),
        r matches Ok(d) ==> d@ == s@,
        r matches Err(e) ==> e@ == did_error(s@),
{
    match Did::new(s) {
        Ok(did) => Ok(String::from(did)),
        Err(e) => Err(e.to_string()),
    }
}

/// `c` may stand inside a handle label: `[a-zA-Z0-9-]`.
pub open spec fn is_label_char(c: char) -> bool {
    is_alnum(c) || c == '-'
}

/// Some dot stands among the 64 characters of `s` from position `i` on.
pub open spec fn dot_within(s: Seq<char>, i: int) -> bool {
    exists|j: int| i <= j <= i + 63 && #[trigger] s[j] == '.'
}

/// `s` matches the handle pattern
/// `^([a-zA-Z0-9]([a-zA-Z0-9-]{0,61}[a-zA-Z0-9])?\.)+[a-zA-Z]([a-zA-Z0-9-]{0,61}[a-zA-Z0-9])?$`:
/// dot-separated labels, at least two, each of 1 to 63 letters, digits and inner hyphens, the
/// last one starting with a letter.
pub open spec fn handle_syntax(s: Seq<char>) -> bool {
    &&& s.len() > 0
    &&& forall|i: int| 0 <= i < s.len() ==> is_label_char(#[trigger] s[i]) || s[i] == '.'
    &&& s[0] != '.' && s.last() != '.'
    &&& forall|i: int| 0 <= i < s.len() - 1 && #[trigger] s[i] == '.' ==> s[i + 1] != '.'
    &&& forall|i: int|
        0 <= i < s.len() && #[trigger] s[i] == '-' ==> 0 < i < s.len() - 1 && s[i - 1] != '.'
            && s[i + 1] != '.'
    &&& forall|i: int| 0 <= i && i + 63 < s.len() ==> #[trigger] dot_within(s, i)
    &&& last_index(s, '.') >= 0
    &&& is_alpha(s[last_index(s, '.') + 1])
}

/// `s` is a handle that `atrium_api` accepts: at most 253 bytes long, with handle syntax.
pub open spec fn is_valid_handle(s: Seq<char>) -> bool {
    encode_utf8(s).len() <= 253 && handle_syntax(s)
}

/// The error that `atrium_api` gives for a rejected handle.
pub open spec fn handle_error(s: Seq<char>) -> Seq<char> {
    if encode_utf8(s).len() > 253 {
        "Handle too long"@
    } else {
        "Invalid handle"@
    }
}

/// `atrium_api::types::string::Handle::new`: accepts exactly the handles of at most 253 bytes
/// that match the handle pattern, keeps the text, and otherwise gives "Handle too long" or
/// "Invalid handle".
#[verifier::external_body]
fn atrium_handle_new(s: String) -> (r: Result<String, String>)
    ensures
        r is Ok <==> is_valid_handle(s@),
        r matches Ok(h) ==> h@ == s@,
        r matches Err(e) ==> e@ == handle_error(s@),
{
    match Handle::new(s) {
        Ok(handle) => Ok(String::from(handle)),
        Err(e) => Err(e.to_string()),
    }
}

/// Checks `s` as a DID, as `Did::new` does: the DID itself, or the reason it was refused.
pub fn parse_did(s: &str) -> (r: Result<String, String>)
    ensures
        r is Ok <==> is_valid_did(s@),
        r matches Ok(d) ==> d@ == s@,
        r matches Err(e) ==> e@ == did_error(s@),
{
    atrium_did_new(s.to_owned())
}

/// Checks `s` as a handle, as `Handle::new` does: the handle itself, or the reason it was refused.
pub fn parse_handle(s: &str) -> (r: Result<String, String>)
    ensures
        r is Ok <==> is_valid_handle(s@),
        r matches Ok(h) ==> h@ == s@,
        r matches Err(e) ==> e@ == handle_error(s@),
{
    atrium_handle_new(s.to_owned())
}

/// `a` comes before `b` in the lexicographic order of characters, and `i` is the first
/// position where they differ (or the length of `a`, where `a` is a proper prefix of `b`).
pub open spec fn lex_lt_at(a: Seq<char>, b: Seq<char>, i: int) -> bool {
    &&& 0 <= i <= a.len()
    &&& i <= b.len()
    &&& forall|k: int| 0 <= k < i ==> a[k] == b[k]
    &&& if i == a.len() {
        i < b.len()
    } else {
        i < b.len() && a[i] < b[i]
    }
}

/// `a` comes strictly before `b` in the lexicographic order of characters, the order in which
/// Rust compares strings.
pub open spec fn lex_lt(a: Seq<char>, b: Seq<char>) -> bool {
    exists|i: int| lex_lt_at(a, b, i)
}

/// Whether `a` comes strictly before `b` in lexicographic order.
pub fn str_lt(a: &str, b: &str) -> (r: bool)
    ensures
        r == lex_lt(a@, b@),
{
    let av = crate::strings::chars_of(a);
    let bv = crate::strings::chars_of(b);
    let mut i: usize = 0;
    while i < av.len() && i < bv.len() && av[i] == bv[i]
        invariant
            av@ == a@,
            bv@ == b@,
            i <= av.len(),
            i <= bv.len(),
            forall|k: int| 0 <= k < i ==> av@[k] == bv@[k],
        decreases av.len() - i,
    {
        i = i + 1;
    }
    let r = if i == av.len() {
        i < bv.len()
    } else {
        i < bv.len() && av[i] < bv[i]
    };
    proof {
        if r {
            assert(lex_lt_at(a@, b@, i as int));
        } else {
            assert forall|j: int| !lex_lt_at(a@, b@, j) by {
                if lex_lt_at(a@, b@, j) {
                    if j < i {
                        assert(a@[j] == b@[j]);
                    } else if j > i {
                        assert(a@[i as int] == b@[i as int]);
                    }
                }
            }
        }
    }
    r
}

/// No text comes before itself.
pub proof fn lemma_lex_lt_irreflexive(a: Seq<char>)
    ensures
        !lex_lt(a, a),
{
}

/// Where `a` comes before `b`, `b` does not come before `a`.
pub proof fn lemma_lex_lt_asymmetric(a: Seq<char>, b: Seq<char>)
    requires
        lex_lt(a, b),
    ensures
        !lex_lt(b, a),
{
    let i = choose|i: int| lex_lt_at(a, b, i);
    if lex_lt(b, a) {
        let j = choose|j: int| lex_lt_at(b, a, j);
        if j < i {
            assert(a[j] == b[j]);
        } else if i < j {
            assert(b[i] == a[i]);
        }
    }
}

/// The order of texts is transitive.
pub proof fn lemma_lex_lt_transitive(a: Seq<char>, b: Seq<char>, c: Seq<char>)
    requires
        lex_lt(a, b),
        lex_lt(b, c),
    ensures
        lex_lt(a, c),
{
    let i = choose|i: int| lex_lt_at(a, b, i);
    let j = choose|j: int| lex_lt_at(b, c, j);
    if i <= j {
        if i == j && i < a.len() {
            assert(lex_lt_at(a, c, i));
        } else if i < j {
            assert(b[i] == c[i]);
            assert(lex_lt_at(a, c, i));
        } else {
            assert(lex_lt_at(a, c, i));
        }
    } else {
        assert(a[j] == b[j]);
        assert(lex_lt_at(a, c, j));
    }
}

/// Of two different texts, one comes before the other.
pub proof fn lemma_lex_lt_total(a: Seq<char>, b: Seq<char>)
    requires
        a != b,
    ensures
        lex_lt(a, b) || lex_lt(b, a),
{
    let n = if a.len() < b.len() { a.len() } else { b.len() };
    if forall|k: int| 0 <= k < n ==> a[k] == b[k] {
        if a.len() == b.len() {
            assert(a =~= b);
        } else if a.len() < b.len() {
            assert(lex_lt_at(a, b, a.len() as int));
        } else {
            assert(lex_lt_at(b, a, b.len() as int));
        }
    } else {
        let d = choose|k: int| 0 <= k < n && a[k] != b[k];
        let i = first_difference(a, b, d);
        if a[i] < b[i] {
            assert(lex_lt_at(a, b, i));
        } else {
            assert(lex_lt_at(b, a, i));
        }
    }
}

proof fn first_difference(a: Seq<char>, b: Seq<char>, d: int) -> (i: int)
    requires
        0 <= d < a.len(),
        d < b.len(),
        a[d] != b[d],
    ensures
        0 <= i <= d,
        a[i] != b[i],
        forall|k: int| 0 <= k < i ==> a[k] == b[k],
    decreases d,
{
    if exists|k: int| 0 <= k < d && a[k] != b[k] {
        let k = choose|k: int| 0 <= k < d && a[k] != b[k];
        first_difference(a, b, k)
    } else {
        d
    }
}

/// A DID that the user has a session for. `.0` is the DID's text. DIDs are equal where their
/// texts are, and order as their texts do.
#[derive(Eq, Ord, Hash, Debug, Clone)]
pub struct UserDid(pub String);

impl std::str::FromStr for UserDid {
    type Err = String;

    /// Parses a DID: the DID where `atrium_api` accepts `s`, or the reason it was refused.
    fn from_str(s: &str) -> (r: Result<UserDid, String>)
        ensures
            r is Ok <==> is_valid_did(s@),
            r matches Ok(d) ==> d.0@ == s@ && d.wf(),
            r matches Err(e) ==> e@ == did_error(s@),
    {
        UserDid::from_str(s)
    }
}

impl PartialEq for UserDid {
    fn eq(&self, other: &Self) -> (r: bool) {
        str_eq(self.0.as_str(), other.0.as_str())
    }
}

impl PartialEqSpecImpl for UserDid {
    open spec fn obeys_eq_spec() -> bool {
        true
    }

    open spec fn eq_spec(&self, other: &Self) -> bool {
        self.0@ == other.0@
    }
}

impl PartialOrd for UserDid {
    fn partial_cmp(&self, other: &Self) -> (r: Option<Ordering>) {
        if str_eq(self.0.as_str(), other.0.as_str()) {
            Some(Ordering::Equal)
        } else if str_lt(self.0.as_str(), other.0.as_str()) {
            Some(Ordering::Less)
        } else {
            Some(Ordering::Greater)
        }
    }
}

impl PartialOrdSpecImpl for UserDid {
    open spec fn obeys_partial_cmp_spec() -> bool {
        true
    }

    open spec fn partial_cmp_spec(&self, other: &Self) -> Option<Ordering> {
        if self.0@ == other.0@ {
            Some(Ordering::Equal)
        } else if lex_lt(self.0@, other.0@) {
            Some(Ordering::Less)
        } else {
            Some(Ordering::Greater)
        }
    }
}

impl UserDid {
    /// The text is a DID that `atrium_api` accepts.
    pub open spec fn wf(&self) -> bool {
        is_valid_did(self.0@)
    }

    /// Parses `s` as a DID (`FromStr`).
    pub fn from_str(s: &str) -> (r: Result<UserDid, String>)
        ensures
            r is Ok <==> is_valid_did(s@),
            r matches Ok(d) ==> d.0@ == s@ && d.wf(),
            r matches Err(e) ==> e@ == did_error(s@),
    {
        match parse_did(s) {
            Ok(d) => Ok(UserDid(d)),
            Err(e) => Err(e),
        }
    }

    /// The DID's text.
    pub fn as_str(&self) -> (r: &str)
        ensures
            r@ == self.0@,
    {
        self.0.as_str()
    }

    /// The DID's text, as `Display` writes it.
    pub fn to_string(&self) -> (r: String)
        ensures
            r@ == self.0@,
    {
        self.0.clone()
    }

    /// A copy of this DID.
    pub fn duplicate(&self) -> (r: UserDid)
        ensures
            r.0@ == self.0@,
    {
        UserDid(self.0.clone())
    }

    /// Whether `self` orders before `other`: DIDs order as their texts do.
    pub fn precedes(&self, other: &UserDid) -> (r: bool)
        ensures
            r == lex_lt(self.0@, other.0@),
    {
        str_lt(self.0.as_str(), other.0.as_str())
    }

    /// Whether `self` and `other` are the same DID.
    pub fn same(&self, other: &UserDid) -> (r: bool)
        ensures
            r == (self.0@ == other.0@),
    {
        self.0 == other.0
    }
}

} // verus!
