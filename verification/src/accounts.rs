//! The accounts on this device: which stored sessions are usable, the ordered choice of
//! accounts, and which one is selected.
use vstd::prelude::*;

use crate::identifiers::{
    is_valid_did, lemma_lex_lt_asymmetric, lemma_lex_lt_irreflexive, lemma_lex_lt_total,
    lemma_lex_lt_transitive, lex_lt, parse_did, UserDid,
};

verus! {

/// The texts of a list of strings.
pub open spec fn texts(v: Seq<String>) -> Seq<Seq<char>> {
    v.map_values(|s: String| s@)
}

/// The entries of `keys` that are DIDs `atrium_api` accepts, in order.
pub open spec fn valid_dids(keys: Seq<Seq<char>>) -> Seq<Seq<char>>
    decreases keys.len(),
{
    if keys.len() == 0 {
        Seq::empty()
    } else if is_valid_did(keys.last()) {
        valid_dids(keys.drop_last()).push(keys.last())
    } else {
        valid_dids(keys.drop_last())
    }
}

/// The DIDs of the stored sessions, from the keys of the session store: keys that are not
/// DIDs are passed over.
pub fn session_dids(keys: &Vec<String>) -> (r: Vec<String>)
    ensures
        texts(r@) == valid_dids(texts(keys@)),
{
    let mut r: Vec<String> = Vec::new();
    let mut i: usize = 0;
    while i < keys.len()
        invariant
            i <= keys.len(),
            texts(r@) == valid_dids(texts(keys@.take(i as int))),
        decreases keys.len() - i,
    {
        let ghost before = r@;
        match parse_did(keys[i].as_str()) {
            Ok(d) => {
                r.push(d);
                assert(texts(r@) =~= texts(before).push(keys@[i as int]@));
            },
            Err(_) => {},
        }
        assert(texts(keys@.take(i + 1)).drop_last() =~= texts(keys@.take(i as int)));
        i = i + 1;
    }
    assert(keys@.take(keys.len() as int) =~= keys@);
    r
}

/// Everything that `session_dids` keeps is a DID, and it keeps only what it was given.
pub proof fn lemma_valid_dids_sound(keys: Seq<Seq<char>>)
    ensures
        forall|i: int|
            0 <= i < valid_dids(keys).len() ==> is_valid_did(#[trigger] valid_dids(keys)[i])
                && keys.contains(valid_dids(keys)[i]),
    decreases keys.len(),
{
    if keys.len() > 0 {
        lemma_valid_dids_sound(keys.drop_last());
        let rest = valid_dids(keys.drop_last());
        assert forall|i: int| 0 <= i < valid_dids(keys).len() implies is_valid_did(
            #[trigger] valid_dids(keys)[i],
        ) && keys.contains(valid_dids(keys)[i]) by {
            if i < rest.len() {
                assert(keys.drop_last().contains(rest[i]));
                let k = choose|k: int| 0 <= k < keys.drop_last().len() && keys.drop_last()[k] == rest[i];
                assert(keys[k] == rest[i]);
            } else {
                assert(keys[keys.len() - 1] == keys.last());
            }
        }
    }
}

/// Every key that is a DID is kept by `session_dids`.
pub proof fn lemma_valid_dids_complete(keys: Seq<Seq<char>>, k: int)
    requires
        0 <= k < keys.len(),
        is_valid_did(keys[k]),
    ensures
        valid_dids(keys).contains(keys[k]),
    decreases keys.len(),
{
    if k == keys.len() - 1 {
        assert(valid_dids(keys).last() == keys[k]);
    } else {
        lemma_valid_dids_complete(keys.drop_last(), k);
        let rest = valid_dids(keys.drop_last());
        let j = choose|j: int| 0 <= j < rest.len() && rest[j] == keys[k];
        if is_valid_did(keys.last()) {
            assert(valid_dids(keys)[j] == rest[j]);
        }
    }
}

/// The texts of a list of DIDs.
pub open spec fn dids_view(v: Seq<UserDid>) -> Seq<Seq<char>> {
    v.map_values(|d: UserDid| d.0@)
}

/// The texts come in strictly increasing order: no repeats, least first.
pub open spec fn strictly_sorted(s: Seq<Seq<char>>) -> bool {
    forall|i: int, j: int| 0 <= i < j < s.len() ==> lex_lt(#[trigger] s[i], #[trigger] s[j])
}

/// Puts `x` into the ordered list `v` at its place, unless it is there already.
fn insert_sorted(v: &mut Vec<UserDid>, x: UserDid)
    requires
        strictly_sorted(dids_view(old(v)@)),
    ensures
        strictly_sorted(dids_view(final(v)@)),
        forall|y: Seq<char>|
            dids_view(final(v)@).contains(y) <==> (dids_view(old(v)@).contains(y) || y == x.0@),
{
    let ghost old_view = dids_view(v@);
    let mut i: usize = 0;
    while i < v.len() && v[i].precedes(&x)
        invariant
            old_view == dids_view(v@),
            i <= v.len(),
            forall|k: int| 0 <= k < i ==> lex_lt(#[trigger] v@[k].0@, x.0@),
        decreases v.len() - i,
    {
        i = i + 1;
    }
    if i < v.len() && v[i].same(&x) {
        assert(old_view[i as int] == x.0@);
        return;
    }
    proof {
        if i < v.len() {
            assert(old_view[i as int] == v@[i as int].0@);
            lemma_lex_lt_total(x.0@, old_view[i as int]);
        }
    }
    let ghost xv = x.0@;
    v.insert(i, x);
    proof {
        let nv = dids_view(v@);
        assert(nv =~= old_view.insert(i as int, xv));
        assert forall|a: int, b: int| 0 <= a < b < nv.len() implies lex_lt(
            #[trigger] nv[a],
            #[trigger] nv[b],
        ) by {
            if b < i {
                assert(nv[a] == old_view[a] && nv[b] == old_view[b]);
            } else if b == i {
                assert(nv[a] == old_view[a]);
                assert(lex_lt(v@[a].0@, xv));
            } else if a == i {
                assert(nv[b] == old_view[b - 1]);
                if b - 1 > i {
                    lemma_lex_lt_transitive(xv, old_view[i as int], old_view[b - 1]);
                }
            } else if a < i {
                assert(nv[a] == old_view[a] && nv[b] == old_view[b - 1]);
            } else {
                assert(nv[a] == old_view[a - 1] && nv[b] == old_view[b - 1]);
            }
        }
        assert forall|y: Seq<char>| nv.contains(y) <==> (old_view.contains(y) || y == xv) by {
            if nv.contains(y) {
                let k = choose|k: int| 0 <= k < nv.len() && nv[k] == y;
                if k < i {
                    assert(old_view[k] == y);
                } else if k > i {
                    assert(old_view[k - 1] == y);
                }
            }
            if old_view.contains(y) {
                let k = choose|k: int| 0 <= k < old_view.len() && old_view[k] == y;
                if k < i {
                    assert(nv[k] == y);
                } else {
                    assert(nv[k + 1] == y);
                }
            }
            if y == xv {
                assert(nv[i as int] == y);
            }
        }
    }
}

/// The DIDs of `v` without repeats, in increasing order.
pub fn sorted_dids(v: &Vec<UserDid>) -> (r: Vec<UserDid>)
    ensures
        strictly_sorted(dids_view(r@)),
        forall|y: Seq<char>| dids_view(r@).contains(y) <==> dids_view(v@).contains(y),
{
    let mut r: Vec<UserDid> = Vec::new();
    let mut i: usize = 0;
    while i < v.len()
        invariant
            i <= v.len(),
            strictly_sorted(dids_view(r@)),
            forall|y: Seq<char>|
                dids_view(r@).contains(y) <==> dids_view(v@.take(i as int)).contains(y),
        decreases v.len() - i,
    {
        insert_sorted(&mut r, v[i].duplicate());
        proof {
            let before = dids_view(v@.take(i as int));
            let after = dids_view(v@.take(i + 1));
            assert(after =~= before.push(v@[i as int].0@));
            assert forall|y: Seq<char>| after.contains(y) <==> (before.contains(y) || y
                == v@[i as int].0@) by {
                if after.contains(y) {
                    let k = choose|k: int| 0 <= k < after.len() && after[k] == y;
                    if k < before.len() {
                        assert(before[k] == y);
                    }
                }
                if before.contains(y) {
                    let k = choose|k: int| 0 <= k < before.len() && before[k] == y;
                    assert(after[k] == y);
                }
                if y == v@[i as int].0@ {
                    assert(after[i as int] == y);
                }
            }
        }
        i = i + 1;
    }
    assert(v@.take(v.len() as int) =~= v@);
    r
}

/// Whether the DID `x` is in `v`.
fn contains_did(v: &Vec<UserDid>, x: &UserDid) -> (r: bool)
    ensures
        r == dids_view(v@).contains(x.0@),
{
    let mut i: usize = 0;
    while i < v.len()
        invariant
            i <= v.len(),
            forall|k: int| 0 <= k < i ==> v@[k].0@ != x.0@,
        decreases v.len() - i,
    {
        if v[i].same(x) {
            assert(dids_view(v@)[i as int] == x.0@);
            return true;
        }
        i = i + 1;
    }
    proof {
        if dids_view(v@).contains(x.0@) {
            let k = choose|k: int| 0 <= k < v.len() && dids_view(v@)[k] == x.0@;
            assert(v@[k].0@ == x.0@);
        }
    }
    false
}

/// The accounts to choose from: the DIDs that have a session, narrowed to `allowed` where that
/// is given, without repeats and in increasing order.
pub fn account_options(sessions: &Vec<UserDid>, allowed: Option<&Vec<UserDid>>) -> (r: Vec<UserDid>)
    ensures
        strictly_sorted(dids_view(r@)),
        forall|y: Seq<char>|
            dids_view(r@).contains(y) <==> (dids_view(sessions@).contains(y) && match allowed {
                Some(a) => dids_view(a@).contains(y),
                None => true,
            }),
{
    let have = sorted_dids(sessions);
    match allowed {
        None => have,
        Some(a) => {
            let wanted = sorted_dids(a);
            let mut r: Vec<UserDid> = Vec::new();
            let mut i: usize = 0;
            while i < wanted.len()
                invariant
                    i <= wanted.len(),
                    strictly_sorted(dids_view(wanted@)),
                    strictly_sorted(dids_view(r@)),
                    forall|k: int|
                        #![trigger dids_view(r@)[k]]
                        0 <= k < r.len() ==> exists|j: int|
                            0 <= j < i && #[trigger] dids_view(wanted@)[j] == dids_view(r@)[k],
                    forall|y: Seq<char>|
                        dids_view(r@).contains(y) <==> (dids_view(wanted@.take(i as int)).contains(
                            y,
                        ) && dids_view(have@).contains(y)),
                decreases wanted.len() - i,
            {
                let ghost before = dids_view(r@);
                let ghost wv = dids_view(wanted@);
                let keep = contains_did(&have, &wanted[i]);
                if keep {
                    r.push(wanted[i].duplicate());
                    proof {
                        let nv = dids_view(r@);
                        assert(nv =~= before.push(wv[i as int]));
                        assert forall|a: int, b: int| 0 <= a < b < nv.len() implies lex_lt(
                            #[trigger] nv[a],
                            #[trigger] nv[b],
                        ) by {
                            if b < before.len() {
                                assert(nv[a] == before[a] && nv[b] == before[b]);
                            } else {
                                assert(nv[a] == before[a]);
                                let j = choose|j: int| 0 <= j < i && #[trigger] wv[j] == before[a];
                                assert(lex_lt(wv[j], wv[i as int]));
                            }
                        }
                        assert forall|k: int| #![trigger nv[k]] 0 <= k < nv.len() implies exists|j: int|
                            0 <= j < i + 1 && #[trigger] wv[j] == nv[k] by {
                            if k < before.len() {
                                assert(nv[k] == before[k]);
                                let j = choose|j: int| 0 <= j < i && #[trigger] wv[j] == before[k];
                                assert(wv[j] == nv[k]);
                            } else {
                                assert(wv[i as int] == nv[k]);
                            }
                        }
                    }
                }
                proof {
                    let nv = dids_view(r@);
                    let tb = dids_view(wanted@.take(i as int));
                    let ta = dids_view(wanted@.take(i + 1));
                    assert(ta =~= tb.push(wv[i as int]));
                    assert forall|y: Seq<char>| nv.contains(y) <==> (ta.contains(y) && dids_view(
                        have@,
                    ).contains(y)) by {
                        if nv.contains(y) {
                            let k = choose|k: int| 0 <= k < nv.len() && nv[k] == y;
                            if k < before.len() {
                                assert(before[k] == y);
                                assert(before.contains(y));
                                assert(tb.contains(y));
                                let m = choose|m: int| 0 <= m < tb.len() && tb[m] == y;
                                assert(ta[m] == y);
                            } else {
                                assert(ta[i as int] == y);
                            }
                        }
                        if ta.contains(y) && dids_view(have@).contains(y) {
                            let m = choose|m: int| 0 <= m < ta.len() && ta[m] == y;
                            if m < i {
                                assert(tb[m] == y);
                                assert(before.contains(y));
                                let k = choose|k: int| 0 <= k < before.len() && before[k] == y;
                                assert(nv[k] == y);
                            } else {
                                assert(nv[before.len() as int] == y);
                            }
                        }
                    }
                    if !keep {
                        assert(nv == before);
                    }
                }
                i = i + 1;
            }
            assert(wanted@.take(wanted.len() as int) =~= wanted@);
            r
        },
    }
}

/// Two ordered lists without repeats that hold the same DIDs are the same list: the choice of
/// accounts is fixed by which DIDs it holds.
pub proof fn lemma_sorted_sets_equal(a: Seq<Seq<char>>, b: Seq<Seq<char>>)
    requires
        strictly_sorted(a),
        strictly_sorted(b),
        forall|y: Seq<char>| a.contains(y) <==> b.contains(y),
    ensures
        a == b,
    decreases a.len() + b.len(),
{
    if a.len() == 0 {
        if b.len() > 0 {
            assert(b.contains(b[0]));
        }
        assert(a =~= b);
    } else if b.len() == 0 {
        assert(a.contains(a[0]));
    } else {
        assert(a.contains(a[0]));
        assert(b.contains(b[0]));
        let i = choose|i: int| 0 <= i < b.len() && b[i] == a[0];
        let j = choose|j: int| 0 <= j < a.len() && a[j] == b[0];
        if i > 0 {
            if j > 0 {
                lemma_lex_lt_asymmetric(a[0], a[j]);
            } else {
                lemma_lex_lt_irreflexive(b[0]);
            }
        }
        assert(a[0] == b[0]);
        let a1 = a.drop_first();
        let b1 = b.drop_first();
        assert forall|y: Seq<char>| a1.contains(y) <==> b1.contains(y) by {
            if a1.contains(y) {
                let k = choose|k: int| 0 <= k < a1.len() && a1[k] == y;
                assert(a[k + 1] == y);
                assert(b.contains(y));
                let m = choose|m: int| 0 <= m < b.len() && b[m] == y;
                if m == 0 {
                    lemma_lex_lt_irreflexive(a[0]);
                }
                assert(b1[m - 1] == y);
            }
            if b1.contains(y) {
                let k = choose|k: int| 0 <= k < b1.len() && b1[k] == y;
                assert(b[k + 1] == y);
                assert(a.contains(y));
                let m = choose|m: int| 0 <= m < a.len() && a[m] == y;
                if m == 0 {
                    lemma_lex_lt_irreflexive(b[0]);
                }
                assert(a1[m - 1] == y);
            }
        }
        lemma_sorted_sets_equal(a1, b1);
        assert(a =~= seq![a[0]] + a1);
        assert(b =~= seq![b[0]] + b1);
    }
}

/// The account selected when a list of accounts is shown: the one already selected, or else
/// the first (least) of the options, or none.
pub fn initial_selection(selected: Option<UserDid>, options: &Vec<UserDid>) -> (r: Option<UserDid>)
    ensures
        selected is Some ==> r == selected,
        selected is None && options.len() == 0 ==> r is None,
        selected is None && options.len() > 0 ==> r is Some && (r->0).0@ == options@[0].0@,
{
    match selected {
        Some(d) => Some(d),
        None => if options.len() > 0 {
            Some(options[0].duplicate())
        } else {
            None
        },
    }
}

/// Which way the list of accounts opens from the account picker.
#[derive(Clone, Copy, PartialEq, Eq, Structural)]
pub enum Direction {
    Up,
    Down,
}

/// The placement classes of the opened list: none where it opens downwards; lifted above the
/// picker where it opens upwards.
pub fn dropdown_class(direction: Direction) -> (r: &'static str)
    ensures
        direction == Direction::Down ==> r@ == ""@,
        direction == Direction::Up ==> r@ == "top-0 -translate-y-full"@,
{
    if direction == Direction::Down {
        ""
    } else {
        "top-0 -translate-y-full"
    }
}

/// The first of an ordered list of accounts comes before every other one.
pub proof fn lemma_first_is_least(options: Seq<Seq<char>>, k: int)
    requires
        strictly_sorted(options),
        0 < k < options.len(),
    ensures
        lex_lt(options[0], options[k]),
{
}

} // verus!
