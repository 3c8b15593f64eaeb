//! The PDSs that this device administers: each domain with its admin password, kept in the
//! order of the domains.
use vstd::prelude::*;

use crate::accounts::strictly_sorted;
use crate::identifiers::{
    lemma_lex_lt_asymmetric, lemma_lex_lt_irreflexive, lemma_lex_lt_total,
    lemma_lex_lt_transitive, lex_lt, str_lt,
};
use crate::strings::str_eq;

verus! {

/// The map that a list of `(domain, password)` entries stands for.
pub open spec fn entries_map(es: Seq<(String, String)>) -> Map<Seq<char>, Seq<char>>
    decreases es.len(),
{
    if es.len() == 0 {
        Map::empty()
    } else {
        entries_map(es.drop_last()).insert(es.last().0@, es.last().1@)
    }
}

/// The domains of a list of entries.
pub open spec fn entry_keys(es: Seq<(String, String)>) -> Seq<Seq<char>> {
    es.map_values(|e: (String, String)| e.0@)
}

proof fn lemma_entries_dom(es: Seq<(String, String)>, q: Seq<char>)
    ensures
        entries_map(es).dom().contains(q) <==> entry_keys(es).contains(q),
    decreases es.len(),
{
    if es.len() > 0 {
        lemma_entries_dom(es.drop_last(), q);
        let ks = entry_keys(es);
        let kd = entry_keys(es.drop_last());
        assert(kd =~= ks.drop_last());
        assert(ks[ks.len() - 1] == es.last().0@);
        if ks.contains(q) {
            let i = choose|i: int| 0 <= i < ks.len() && ks[i] == q;
            if i < ks.len() - 1 {
                assert(kd[i] == q);
            }
        }
        if kd.contains(q) {
            let i = choose|i: int| 0 <= i < kd.len() && kd[i] == q;
            assert(ks[i] == q);
        }
    }
}

proof fn lemma_entries_value(es: Seq<(String, String)>, i: int)
    requires
        0 <= i < es.len(),
        strictly_sorted(entry_keys(es)),
    ensures
        entries_map(es).dom().contains(es[i].0@),
        entries_map(es)[es[i].0@] == es[i].1@,
    decreases es.len(),
{
    if i < es.len() - 1 {
        let ks = entry_keys(es);
        assert(entry_keys(es.drop_last()) =~= ks.drop_last());
        lemma_entries_value(es.drop_last(), i);
        assert(lex_lt(ks[i], ks[es.len() - 1]));
        lemma_lex_lt_irreflexive(ks[i]);
    }
}

/// The domains that this device administers, each with the admin password saved for it.
pub struct PdsStore {
    entries: Vec<(String, String)>,
}

impl PdsStore {
    /// The entries are ordered by domain, without repeats.
    #[verifier::type_invariant]
    spec fn wf(&self) -> bool {
        strictly_sorted(entry_keys(self.entries@))
    }

    /// The store with no domains.
    pub fn new() -> (r: PdsStore)
        ensures
            r@ == Map::<Seq<char>, Seq<char>>::empty(),
    {
        PdsStore { entries: Vec::new() }
    }

    /// Where `domain` is or would go: every entry before the position has a smaller domain;
    /// `true` where the entry at the position has this domain.
    fn locate(&self, domain: &str) -> (r: (usize, bool))
        requires
            self.wf(),
        ensures
            r.0 <= self.entries.len(),
            forall|j: int| 0 <= j < r.0 ==> lex_lt(#[trigger] entry_keys(self.entries@)[j], domain@),
            r.1 ==> r.0 < self.entries.len() && entry_keys(self.entries@)[r.0 as int] == domain@,
            !r.1 ==> !entry_keys(self.entries@).contains(domain@),
            !r.1 ==> forall|j: int|
                r.0 <= j < self.entries.len() ==> lex_lt(domain@, #[trigger] entry_keys(self.entries@)[j]),
    {
        let ghost ks = entry_keys(self.entries@);
        let mut i: usize = 0;
        while i < self.entries.len() && str_lt(self.entries[i].0.as_str(), domain)
            invariant
                ks == entry_keys(self.entries@),
                i <= self.entries.len(),
                forall|j: int| 0 <= j < i ==> lex_lt(#[trigger] ks[j], domain@),
            decreases self.entries.len() - i,
        {
            assert(ks[i as int] == self.entries@[i as int].0@);
            i = i + 1;
        }
        if i < self.entries.len() && str_eq(self.entries[i].0.as_str(), domain) {
            assert(ks[i as int] == self.entries@[i as int].0@);
            return (i, true);
        }
        proof {
            if i < self.entries.len() {
                assert(ks[i as int] == self.entries@[i as int].0@);
                lemma_lex_lt_total(domain@, ks[i as int]);
            }
            assert forall|j: int| i <= j < self.entries.len() implies lex_lt(domain@, #[trigger] ks[j]) by {
                if j > i {
                    lemma_lex_lt_transitive(domain@, ks[i as int], ks[j]);
                }
            }
            if ks.contains(domain@) {
                let j = choose|j: int| 0 <= j < ks.len() && ks[j] == domain@;
                lemma_lex_lt_irreflexive(domain@);
                if j < i {
                    assert(lex_lt(ks[j], domain@));
                } else {
                    assert(lex_lt(domain@, ks[j]));
                }
            }
        }
        (i, false)
    }

    /// The administered domains, in order.
    pub fn domains(&self) -> (r: Vec<String>)
        ensures
            strictly_sorted(r@.map_values(|s: String| s@)),
            forall|d: Seq<char>| r@.map_values(|s: String| s@).contains(d) <==> self@.dom().contains(d),
    {
        proof {
            use_type_invariant(self);
        }
        let mut r: Vec<String> = Vec::new();
        let mut i: usize = 0;
        while i < self.entries.len()
            invariant
                i <= self.entries.len(),
                r@.map_values(|s: String| s@) == entry_keys(self.entries@).take(i as int),
            decreases self.entries.len() - i,
        {
            let ghost before = r@;
            let k = self.entries[i].0.clone();
            assert(k@ == entry_keys(self.entries@)[i as int]);
            r.push(k);
            assert(r@.map_values(|s: String| s@) =~= before.map_values(|s: String| s@).push(k@));
            assert(entry_keys(self.entries@).take(i + 1) =~= entry_keys(self.entries@).take(i as int).push(k@));
            i = i + 1;
        }
        proof {
            assert(entry_keys(self.entries@).take(i as int) =~= entry_keys(self.entries@));
            assert forall|d: Seq<char>| r@.map_values(|s: String| s@).contains(d) <==> self@.dom().contains(d) by {
                lemma_entries_dom(self.entries@, d);
            }
        }
        r
    }

    /// The admin password saved for `domain`, or the empty text where there is none.
    pub fn password_of(&self, domain: &str) -> (r: String)
        ensures
            self@.dom().contains(domain@) ==> r@ == self@[domain@],
            !self@.dom().contains(domain@) ==> r@ == Seq::<char>::empty(),
    {
        proof {
            use_type_invariant(self);
        }
        let (i, found) = self.locate(domain);
        proof {
            lemma_entries_dom(self.entries@, domain@);
        }
        if found {
            proof {
                lemma_entries_value(self.entries@, i as int);
            }
            self.entries[i].1.clone()
        } else {
            String::new()
        }
    }

    proof fn lemma_insert_sorted(old_es: Seq<(String, String)>, new_es: Seq<(String, String)>, i: int, k: Seq<char>)
        requires
            strictly_sorted(entry_keys(old_es)),
            0 <= i <= old_es.len(),
            entry_keys(new_es) == entry_keys(old_es).insert(i, k),
            forall|j: int| 0 <= j < i ==> lex_lt(#[trigger] entry_keys(old_es)[j], k),
            forall|j: int| i <= j < old_es.len() ==> lex_lt(k, #[trigger] entry_keys(old_es)[j]),
        ensures
            strictly_sorted(entry_keys(new_es)),
    {
        let ov = entry_keys(old_es);
        let nv = entry_keys(new_es);
        assert forall|a: int, b: int| 0 <= a < b < nv.len() implies lex_lt(#[trigger] nv[a], #[trigger] nv[b]) by {
            if b < i {
                assert(nv[a] == ov[a] && nv[b] == ov[b]);
            } else if b == i {
                assert(nv[a] == ov[a]);
            } else if a == i {
                assert(nv[b] == ov[b - 1]);
            } else if a < i {
                assert(nv[a] == ov[a] && nv[b] == ov[b - 1]);
            } else {
                assert(nv[a] == ov[a - 1] && nv[b] == ov[b - 1]);
            }
        }
    }

    /// The maps of two well-ordered lists agree where they hold the same domains with the same
    /// passwords.
    proof fn lemma_same_map(es: Seq<(String, String)>, m: Map<Seq<char>, Seq<char>>)
        requires
            strictly_sorted(entry_keys(es)),
            forall|q: Seq<char>| entry_keys(es).contains(q) <==> m.dom().contains(q),
            forall|j: int| 0 <= j < es.len() ==> m[#[trigger] es[j].0@] == es[j].1@,
        ensures
            entries_map(es) == m,
    {
        assert forall|q: Seq<char>| entries_map(es).dom().contains(q) <==> m.dom().contains(q) by {
            lemma_entries_dom(es, q);
        }
        assert forall|q: Seq<char>| entries_map(es).dom().contains(q) implies entries_map(es)[q] == m[q] by {
            lemma_entries_dom(es, q);
            let j = choose|j: int| 0 <= j < entry_keys(es).len() && entry_keys(es)[j] == q;
            lemma_entries_value(es, j);
            assert(es[j].0@ == q);
        }
        assert(entries_map(es) =~= m);
    }

    /// Saves `password` for `domain`, adding the domain where it is new.
    pub fn save_password(&mut self, domain: &str, password: &str)
        ensures
            final(self)@ == old(self)@.insert(domain@, password@),
    {
        proof {
            use_type_invariant(&*self);
        }
        let (i, found) = self.locate(domain);
        let ghost old_es = self.entries@;
        let ghost m = entries_map(old_es).insert(domain@, password@);
        let mut held: Vec<(String, String)> = Vec::new();
        std::mem::swap(&mut held, &mut self.entries);
        proof {
            assert forall|q: Seq<char>| entry_keys(old_es).contains(q) <==> entries_map(old_es).dom().contains(q) by {
                lemma_entries_dom(old_es, q);
            }
        }
        if found {
            held.set(i, (domain.to_owned(), password.to_owned()));
            proof {
                let es = held@;
                assert(entry_keys(es) =~= entry_keys(old_es));
                assert forall|j: int| 0 <= j < es.len() implies m[#[trigger] es[j].0@] == es[j].1@ by {
                    if j != i {
                        lemma_entries_value(old_es, j);
                        lemma_lex_lt_irreflexive(domain@);
                        if j < i {
                            assert(lex_lt(entry_keys(old_es)[j], entry_keys(old_es)[i as int]));
                        } else {
                            assert(lex_lt(entry_keys(old_es)[i as int], entry_keys(old_es)[j]));
                        }
                    }
                }
                assert forall|q: Seq<char>| entry_keys(es).contains(q) <==> m.dom().contains(q) by {
                    if q == domain@ {
                        assert(entry_keys(es)[i as int] == q);
                    }
                }
                Self::lemma_same_map(es, m);
            }
        } else {
            held.insert(i, (domain.to_owned(), password.to_owned()));
            proof {
                let es = held@;
                assert(entry_keys(es) =~= entry_keys(old_es).insert(i as int, domain@));
                Self::lemma_insert_sorted(old_es, es, i as int, domain@);
                assert forall|j: int| 0 <= j < es.len() implies m[#[trigger] es[j].0@] == es[j].1@ by {
                    if j < i {
                        assert(es[j] == old_es[j]);
                        lemma_entries_value(old_es, j);
                        lemma_lex_lt_irreflexive(domain@);
                    } else if j > i {
                        assert(es[j] == old_es[j - 1]);
                        lemma_entries_value(old_es, j - 1);
                        lemma_lex_lt_irreflexive(domain@);
                    }
                }
                assert forall|q: Seq<char>| entry_keys(es).contains(q) <==> m.dom().contains(q) by {
                    let ov = entry_keys(old_es);
                    let nv = entry_keys(es);
                    if nv.contains(q) {
                        let k = choose|k: int| 0 <= k < nv.len() && nv[k] == q;
                        if k < i {
                            assert(ov[k] == q);
                        } else if k > i {
                            assert(ov[k - 1] == q);
                        }
                    }
                    if ov.contains(q) {
                        let k = choose|k: int| 0 <= k < ov.len() && ov[k] == q;
                        if k < i {
                            assert(nv[k] == q);
                        } else {
                            assert(nv[k + 1] == q);
                        }
                    }
                    if q == domain@ {
                        assert(nv[i as int] == q);
                    }
                }
                Self::lemma_same_map(es, m);
            }
        }
        self.entries = held;
    }

    /// Adds `domain` with an empty password, unless it is there already (then its password
    /// stays).
    pub fn add_domain(&mut self, domain: &str)
        ensures
            old(self)@.dom().contains(domain@) ==> final(self)@ == old(self)@,
            !old(self)@.dom().contains(domain@) ==> final(self)@ == old(self)@.insert(
                domain@,
                Seq::<char>::empty(),
            ),
    {
        proof {
            use_type_invariant(&*self);
        }
        let (_, found) = self.locate(domain);
        proof {
            lemma_entries_dom(self.entries@, domain@);
        }
        if !found {
            proof {
                reveal_strlit("");
                assert(""@ =~= Seq::<char>::empty());
            }
            self.save_password(domain, "");
        }
    }

    /// Forgets `domain` and its password.
    pub fn remove(&mut self, domain: &str)
        ensures
            final(self)@ == old(self)@.remove(domain@),
    {
        proof {
            use_type_invariant(&*self);
        }
        let (i, found) = self.locate(domain);
        let ghost old_es = self.entries@;
        let ghost m = entries_map(old_es).remove(domain@);
        proof {
            assert forall|q: Seq<char>| entry_keys(old_es).contains(q) <==> entries_map(old_es).dom().contains(q) by {
                lemma_entries_dom(old_es, q);
            }
        }
        if found {
            let mut held: Vec<(String, String)> = Vec::new();
            std::mem::swap(&mut held, &mut self.entries);
            held.remove(i);
            proof {
                let es = held@;
                let ov = entry_keys(old_es);
                let nv = entry_keys(es);
                assert(nv =~= ov.remove(i as int));
                assert forall|a: int, b: int| 0 <= a < b < nv.len() implies lex_lt(#[trigger] nv[a], #[trigger] nv[b]) by {
                    if b < i {
                        assert(nv[a] == ov[a] && nv[b] == ov[b]);
                    } else if a < i {
                        assert(nv[a] == ov[a] && nv[b] == ov[b + 1]);
                    } else {
                        assert(nv[a] == ov[a + 1] && nv[b] == ov[b + 1]);
                    }
                }
                assert forall|j: int| 0 <= j < es.len() implies m[#[trigger] es[j].0@] == es[j].1@ by {
                    lemma_lex_lt_irreflexive(domain@);
                    if j < i {
                        assert(es[j] == old_es[j]);
                        lemma_entries_value(old_es, j);
                        assert(lex_lt(ov[j], ov[i as int]));
                    } else {
                        assert(es[j] == old_es[j + 1]);
                        lemma_entries_value(old_es, j + 1);
                        assert(lex_lt(ov[i as int], ov[j + 1]));
                    }
                }
                assert forall|q: Seq<char>| nv.contains(q) <==> m.dom().contains(q) by {
                    lemma_lex_lt_irreflexive(domain@);
                    if nv.contains(q) {
                        let k = choose|k: int| 0 <= k < nv.len() && nv[k] == q;
                        if k < i {
                            assert(ov[k] == q);
                            assert(lex_lt(ov[k], ov[i as int]));
                        } else {
                            assert(ov[k + 1] == q);
                            assert(lex_lt(ov[i as int], ov[k + 1]));
                        }
                    }
                    if ov.contains(q) && q != domain@ {
                        let k = choose|k: int| 0 <= k < ov.len() && ov[k] == q;
                        if k < i {
                            assert(nv[k] == q);
                        } else {
                            assert(k != i);
                            assert(nv[k - 1] == q);
                        }
                    }
                }
                Self::lemma_same_map(es, m);
            }
            self.entries = held;
        } else {
            proof {
                lemma_entries_dom(old_es, domain@);
                assert(entries_map(old_es) =~= m);
            }
        }
    }
}

impl View for PdsStore {
    type V = Map<Seq<char>, Seq<char>>;

    closed spec fn view(&self) -> Map<Seq<char>, Seq<char>> {
        entries_map(self.entries@)
    }
}

/// What was saved for a domain is what is read back for it: after `save_password(d, p)`,
/// `password_of(d)` gives `p`.
pub proof fn lemma_password_read_after_save(
    before: PdsStore,
    after: PdsStore,
    domain: Seq<char>,
    password: Seq<char>,
)
    requires
        after@ == before@.insert(domain, password),
    ensures
        after@.dom().contains(domain),
        after@[domain] == password,
{
}

/// Adding a domain that is already administered keeps its password; a new one starts with the
/// empty password.
pub proof fn lemma_add_keeps_password(before: PdsStore, after: PdsStore, domain: Seq<char>)
    requires
        before@.dom().contains(domain) ==> after@ == before@,
        !before@.dom().contains(domain) ==> after@ == before@.insert(domain, Seq::<char>::empty()),
    ensures
        after@.dom().contains(domain),
        before@.dom().contains(domain) ==> after@[domain] == before@[domain],
        !before@.dom().contains(domain) ==> after@[domain] == Seq::<char>::empty(),
{
}

/// A removed domain is no longer administered, and the others keep their passwords.
pub proof fn lemma_remove_forgets(before: PdsStore, after: PdsStore, domain: Seq<char>, other: Seq<char>)
    requires
        after@ == before@.remove(domain),
        other != domain,
    ensures
        !after@.dom().contains(domain),
        before@.dom().contains(other) <==> after@.dom().contains(other),
        before@.dom().contains(other) ==> after@[other] == before@[other],
{
}

} // verus!
