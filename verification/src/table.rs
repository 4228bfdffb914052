//! A map from strings to values that is walked in the order of its keys.

use crate::order::{lemma_lex_antisymmetric, lemma_lex_total, lemma_lex_transitive,
    lemma_stable_sorted, lemma_text_rank_injective, lex_le, stable_sorted, text_le, text_rank,
    text_ranking};
use crate::text::str_eq;
use vstd::prelude::*;

verus! {

/// Whether `a` comes strictly before `b` in the order of strings.
pub open spec fn text_before(a: Seq<char>, b: Seq<char>) -> bool {
    lex_le(text_rank(a), text_rank(b)) && a != b
}

/// Whether keys are strictly ascending.
pub open spec fn keys_ascend(keys: Seq<Seq<char>>) -> bool {
    forall|i: int, j: int| 0 <= i < j < keys.len() ==> text_before(#[trigger] keys[i], #[trigger] keys[j])
}

/// The keys of a set, in ascending order.
pub open spec fn sorted_keys(dom: Set<Seq<char>>) -> Seq<Seq<char>> {
    choose|keys: Seq<Seq<char>>| #[trigger] keys_ascend(keys) && keys.to_set() == dom
}

proof fn lemma_before_asymmetric(a: Seq<char>, b: Seq<char>)
    requires
        text_before(a, b),
    ensures
        !lex_le(text_rank(b), text_rank(a)),
{
    if lex_le(text_rank(b), text_rank(a)) {
        lemma_lex_antisymmetric(text_rank(a), text_rank(b));
        lemma_text_rank_injective(a, b);
    }
}

/// There is only one ascending arrangement of a set of keys.
pub proof fn lemma_ascending_keys_unique(a: Seq<Seq<char>>, b: Seq<Seq<char>>)
    requires
        keys_ascend(a),
        keys_ascend(b),
        a.to_set() == b.to_set(),
    ensures
        a == b,
    decreases a.len(),
{
    if a.len() == 0 {
        if b.len() > 0 {
            assert(b.to_set().contains(b[0]));
            assert(a.to_set().contains(b[0]));
        }
        assert(a =~= b);
    } else {
        assert(a.to_set().contains(a[0]));
        assert(b.to_set().contains(a[0]));
        let j = choose|j: int| 0 <= j < b.len() && b[j] == a[0];
        assert(b.to_set().contains(b[0]));
        assert(a.to_set().contains(b[0]));
        let i = choose|i: int| 0 <= i < a.len() && a[i] == b[0];
        if a[0] != b[0] {
            assert(text_before(a[0], a[i]));
            assert(text_before(b[0], b[j]));
            lemma_before_asymmetric(a[0], b[0]);
        }
        let ta = a.drop_first();
        let tb = b.drop_first();
        assert forall|p: int, q: int| 0 <= p < q < ta.len() implies text_before(
            #[trigger] ta[p],
            #[trigger] ta[q],
        ) by {
            assert(text_before(a[p + 1], a[q + 1]));
        }
        assert forall|p: int, q: int| 0 <= p < q < tb.len() implies text_before(
            #[trigger] tb[p],
            #[trigger] tb[q],
        ) by {
            assert(text_before(b[p + 1], b[q + 1]));
        }
        assert forall|k: Seq<char>| ta.to_set().contains(k) <==> tb.to_set().contains(k) by {
            if ta.contains(k) {
                let p = choose|p: int| 0 <= p < ta.len() && ta[p] == k;
                assert(a[p + 1] == k);
                assert(text_before(a[0], a[p + 1]));
                assert(a.to_set().contains(k));
                assert(b.to_set().contains(k));
                let q = choose|q: int| 0 <= q < b.len() && b[q] == k;
                assert(tb[q - 1] == k);
            }
            if tb.contains(k) {
                let p = choose|p: int| 0 <= p < tb.len() && tb[p] == k;
                assert(b[p + 1] == k);
                assert(text_before(b[0], b[p + 1]));
                assert(b.to_set().contains(k));
                assert(a.to_set().contains(k));
                let q = choose|q: int| 0 <= q < a.len() && a[q] == k;
                assert(ta[q - 1] == k);
            }
        }
        assert(ta.to_set() =~= tb.to_set());
        lemma_ascending_keys_unique(ta, tb);
        assert(a =~= seq![a[0]] + ta);
        assert(b =~= seq![b[0]] + tb);
    }
}

/// Ascending keys are the sorted keys of their set.
pub proof fn lemma_sorted_keys(keys: Seq<Seq<char>>)
    requires
        keys_ascend(keys),
    ensures
        keys == sorted_keys(keys.to_set()),
{
    let s = sorted_keys(keys.to_set());
    assert(keys_ascend(s) && s.to_set() == keys.to_set());
    lemma_ascending_keys_unique(keys, s);
}

/// Every finite set of keys has an ascending arrangement.
pub proof fn lemma_sorted_keys_exist(dom: Set<Seq<char>>)
    requires
        dom.finite(),
    ensures
        keys_ascend(sorted_keys(dom)),
        sorted_keys(dom).to_set() == dom,
    decreases dom.len(),
{
    broadcast use vstd::seq_lib::group_to_multiset_ensures;

    if dom.len() == 0 {
        let none = Seq::<Seq<char>>::empty();
        assert(dom =~= Set::<Seq<char>>::empty());
        assert(none.to_set() =~= dom);
        assert(keys_ascend(none));
    } else {
        let x = dom.choose();
        let rest = dom.remove(x);
        lemma_sorted_keys_exist(rest);
        let t = sorted_keys(rest);
        let s = t.push(x);
        assert forall|i: int, j: int| 0 <= i < s.len() && 0 <= j < s.len() && i != j implies s[i]
            != s[j] by {
            if i < t.len() && j < t.len() {
                if i < j {
                    assert(text_before(t[i], t[j]));
                } else {
                    assert(text_before(t[j], t[i]));
                }
            } else if i < t.len() {
                assert(t.to_set().contains(t[i]));
            } else {
                assert(t.to_set().contains(t[j]));
            }
        }
        let r = stable_sorted(s, text_ranking());
        lemma_stable_sorted(s, text_ranking());
        s.lemma_multiset_has_no_duplicates();
        r.lemma_multiset_has_no_duplicates_conv();
        assert forall|i: int, j: int| 0 <= i < j < r.len() implies text_before(
            #[trigger] r[i],
            #[trigger] r[j],
        ) by {
            assert(lex_le(text_ranking()(r[i]), text_ranking()(r[j])));
        }
        assert forall|k: Seq<char>| r.to_set().contains(k) <==> dom.contains(k) by {
            assert(r.contains(k) <==> r.to_multiset().count(k) > 0);
            assert(s.contains(k) <==> s.to_multiset().count(k) > 0);
            if dom.contains(k) && k != x {
                assert(t.to_set().contains(k));
                let i = choose|i: int| 0 <= i < t.len() && t[i] == k;
                assert(s[i] == k);
            }
            assert(s[t.len() as int] == x);
            if s.contains(k) && k != x {
                let i = choose|i: int| 0 <= i < s.len() && s[i] == k;
                assert(t[i] == k);
                assert(t.to_set().contains(k));
            }
        }
        assert(r.to_set() =~= dom);
        assert(keys_ascend(r));
    }
}

/// A map from strings to values, kept in the order of its keys.
pub struct Table<T> {
    keys: Vec<String>,
    values: Vec<T>,
}

/// The keys of a table as sequences of characters.
spec fn key_seq(keys: Seq<String>) -> Seq<Seq<char>> {
    Seq::new(keys.len(), |i: int| keys[i]@)
}

impl<T> View for Table<T> {
    type V = Map<Seq<char>, T>;

    closed spec fn view(&self) -> Map<Seq<char>, T> {
        Map::new(
            |k: Seq<char>| key_seq(self.keys@).contains(k),
            |k: Seq<char>| self.values@[key_seq(self.keys@).index_of(k)],
        )
    }
}

impl<T> Table<T> {
    /// Whether the table is consistent: one value for each key, keys strictly
    /// ascending.
    pub closed spec fn wf(&self) -> bool {
        &&& self.keys@.len() == self.values@.len()
        &&& keys_ascend(key_seq(self.keys@))
    }

    /// The keys in ascending order.
    pub closed spec fn ordered(&self) -> Seq<Seq<char>> {
        key_seq(self.keys@)
    }

    /// The ordered keys are the keys of the map, in the only ascending order.
    pub proof fn lemma_ordered(&self)
        requires
            self.wf(),
        ensures
            keys_ascend(self.ordered()),
            self.ordered().to_set() == self@.dom(),
            self.ordered() == sorted_keys(self@.dom()),
            self@.dom().finite(),
            self@.len() == self.ordered().len(),
    {
        assert(self.ordered().to_set() =~= self@.dom());
        lemma_sorted_keys(self.ordered());
        let ks = self.ordered();
        assert forall|i: int, j: int| 0 <= i < ks.len() && 0 <= j < ks.len() && i != j implies ks[i]
            != ks[j] by {
            if i < j {
                assert(text_before(ks[i], ks[j]));
            } else {
                assert(text_before(ks[j], ks[i]));
            }
        }
        ks.unique_seq_to_set();
        vstd::seq_lib::seq_to_set_is_finite(ks);
    }

    proof fn lemma_at(&self, i: int)
        requires
            self.wf(),
            0 <= i < self.keys@.len(),
        ensures
            self@.contains_key(self.keys@[i]@),
            self@[self.keys@[i]@] == self.values@[i],
            key_seq(self.keys@).index_of(self.keys@[i]@) == i,
    {
        let ks = key_seq(self.keys@);
        assert(ks[i] == self.keys@[i]@);
        assert(ks.contains(ks[i]));
        let j = ks.index_of(ks[i]);
        assert(0 <= j < ks.len() && ks[j] == ks[i]);
        if j < i {
            assert(text_before(ks[j], ks[i]));
        } else if i < j {
            assert(text_before(ks[i], ks[j]));
        }
    }

    /// An empty table.
    pub fn new() -> (r: Self)
        ensures
            r.wf(),
            r@ == Map::<Seq<char>, T>::empty(),
    {
        let r = Table { keys: Vec::new(), values: Vec::new() };
        assert(r@ =~= Map::<Seq<char>, T>::empty());
        r
    }

    /// How many keys there are.
    pub fn len(&self) -> (r: usize)
        requires
            self.wf(),
        ensures
            r == self@.len(),
            r == self.ordered().len(),
    {
        proof {
            self.lemma_ordered();
        }
        self.keys.len()
    }

    /// The key at a position of the order.
    pub fn key_at(&self, i: usize) -> (r: &String)
        requires
            self.wf(),
            i < self.ordered().len(),
        ensures
            r@ == self.ordered()[i as int],
            self@.contains_key(r@),
    {
        proof {
            self.lemma_at(i as int);
        }
        &self.keys[i]
    }

    /// The value at a position of the order.
    pub fn value_at(&self, i: usize) -> (r: &T)
        requires
            self.wf(),
            i < self.ordered().len(),
        ensures
            *r == self@[self.ordered()[i as int]],
    {
        proof {
            self.lemma_at(i as int);
        }
        &self.values[i]
    }

    /// The position of a key, or where it would have to stand.
    fn locate(&self, key: &str) -> (r: (usize, bool))
        requires
            self.wf(),
        ensures
            r.0 <= self.keys@.len(),
            r.1 ==> r.0 < self.keys@.len() && self.keys@[r.0 as int]@ == key@,
            !r.1 ==> !self@.contains_key(key@),
            !r.1 ==> forall|i: int| 0 <= i < r.0 ==> text_before(#[trigger] self.keys@[i]@, key@),
            !r.1 ==> forall|i: int|
                r.0 <= i < self.keys@.len() ==> text_before(key@, #[trigger] self.keys@[i]@),
    {
        let mut i: usize = 0;
        while i < self.keys.len()
            invariant
                self.wf(),
                i <= self.keys@.len(),
                forall|j: int| 0 <= j < i ==> text_before(#[trigger] self.keys@[j]@, key@),
            decreases self.keys.len() - i,
        {
            let ghost ks = key_seq(self.keys@);
            if str_eq(self.keys[i].as_str(), key) {
                return (i, true);
            }
            if !text_le(self.keys[i].as_str(), key) {
                proof {
                    lemma_lex_total(text_rank(key@), text_rank(ks[i as int]));
                    assert forall|j: int| i <= j < self.keys@.len() implies text_before(
                        key@,
                        #[trigger] self.keys@[j]@,
                    ) by {
                        if j > i {
                            assert(text_before(ks[i as int], ks[j]));
                            lemma_lex_transitive(
                                text_rank(key@),
                                text_rank(ks[i as int]),
                                text_rank(ks[j]),
                            );
                            if ks[j] == key@ {
                                lemma_before_asymmetric(ks[i as int], ks[j]);
                            }
                        }
                    }
                    if self@.contains_key(key@) {
                        let j = choose|j: int| 0 <= j < ks.len() && ks[j] == key@;
                        if j < i {
                            assert(text_before(self.keys@[j]@, key@));
                        } else {
                            assert(text_before(key@, self.keys@[j]@));
                        }
                    }
                }
                return (i, false);
            }
            i += 1;
        }
        proof {
            let ks = key_seq(self.keys@);
            if self@.contains_key(key@) {
                let j = choose|j: int| 0 <= j < ks.len() && ks[j] == key@;
                assert(text_before(self.keys@[j]@, key@));
            }
        }
        (i, false)
    }

    /// Whether a key is present.
    pub fn contains(&self, key: &str) -> (r: bool)
        requires
            self.wf(),
        ensures
            r == self@.contains_key(key@),
    {
        let (i, found) = self.locate(key);
        proof {
            if found {
                self.lemma_at(i as int);
            }
        }
        found
    }

    /// The value of a key.
    pub fn get(&self, key: &str) -> (r: Option<&T>)
        requires
            self.wf(),
        ensures
            match r {
                Some(v) => self@.contains_key(key@) && *v == self@[key@],
                None => !self@.contains_key(key@),
            },
    {
        let (i, found) = self.locate(key);
        if found {
            proof {
                self.lemma_at(i as int);
            }
            Some(&self.values[i])
        } else {
            None
        }
    }

    /// Sets the value of a key and returns the one it had.
    pub fn insert(&mut self, key: String, value: T) -> (r: Option<T>)
        requires
            old(self).wf(),
        ensures
            final(self).wf(),
            final(self)@ == old(self)@.insert(key@, value),
            match r {
                Some(v) => old(self)@.contains_key(key@) && v == old(self)@[key@],
                None => !old(self)@.contains_key(key@),
            },
    {
        let ghost before = *self;
        let ghost k = key@;
        let (i, found) = self.locate(key.as_str());
        if found {
            let previous = self.values.remove(i);
            self.values.insert(i, value);
            proof {
                before.lemma_at(i as int);
                assert(self.values@ =~= before.values@.update(i as int, value));
                assert(self.keys@ == before.keys@);
                assert forall|q: Seq<char>| #[trigger]
                    self@.contains_key(q) implies self@[q] == before@.insert(k, value)[q] by {
                    let j = key_seq(self.keys@).index_of(q);
                    if j == i {
                        assert(q == k);
                    }
                }
                assert(self@ =~= before@.insert(k, value));
            }
            Some(previous)
        } else {
            self.keys.insert(i, key);
            self.values.insert(i, value);
            proof {
                let ks = key_seq(self.keys@);
                let old_ks = key_seq(before.keys@);
                assert(ks =~= old_ks.insert(i as int, k));
                assert forall|p: int, q: int| 0 <= p < q < ks.len() implies text_before(
                    #[trigger] ks[p],
                    #[trigger] ks[q],
                ) by {
                    let pp = if p < i { p } else { p - 1 };
                    let qq = if q < i { q } else { q - 1 };
                    if p == i {
                        assert(text_before(k, before.keys@[qq]@));
                    } else if q == i {
                        assert(text_before(before.keys@[pp]@, k));
                    } else {
                        assert(text_before(old_ks[pp], old_ks[qq]));
                    }
                }
                assert(self.wf());
                assert forall|q: Seq<char>| self@.contains_key(q) <==> before@.insert(
                    k,
                    value,
                ).contains_key(q) by {
                    if ks.contains(q) {
                        let j = choose|j: int| 0 <= j < ks.len() && ks[j] == q;
                        if j < i {
                            assert(old_ks[j] == q);
                        } else if j > i {
                            assert(old_ks[j - 1] == q);
                        }
                    }
                    if old_ks.contains(q) {
                        let j = choose|j: int| 0 <= j < old_ks.len() && old_ks[j] == q;
                        if j < i {
                            assert(ks[j] == q);
                        } else {
                            assert(ks[j + 1] == q);
                        }
                    }
                    assert(ks[i as int] == k);
                }
                assert forall|q: Seq<char>| #[trigger]
                    self@.contains_key(q) implies self@[q] == before@.insert(k, value)[q] by {
                    let j = ks.index_of(q);
                    self.lemma_at(j);
                    if j < i {
                        before.lemma_at(j);
                    } else if j > i {
                        before.lemma_at(j - 1);
                    }
                }
                assert(self@ =~= before@.insert(k, value));
            }
            None
        }
    }

    /// Takes a key and its value out.
    pub fn remove(&mut self, key: &str) -> (r: Option<T>)
        requires
            old(self).wf(),
        ensures
            final(self).wf(),
            final(self)@ == old(self)@.remove(key@),
            match r {
                Some(v) => old(self)@.contains_key(key@) && v == old(self)@[key@],
                None => !old(self)@.contains_key(key@),
            },
    {
        let ghost before = *self;
        let ghost k = key@;
        let (i, found) = self.locate(key);
        if found {
            proof {
                before.lemma_at(i as int);
            }
            let gone = self.keys.remove(i);
            let value = self.values.remove(i);
            proof {
                let ks = key_seq(self.keys@);
                let old_ks = key_seq(before.keys@);
                assert(ks =~= old_ks.remove(i as int));
                assert forall|p: int, q: int| 0 <= p < q < ks.len() implies text_before(
                    #[trigger] ks[p],
                    #[trigger] ks[q],
                ) by {
                    let pp = if p < i { p } else { p + 1 };
                    let qq = if q < i { q } else { q + 1 };
                    assert(text_before(old_ks[pp], old_ks[qq]));
                }
                assert(self.wf());
                assert forall|q: Seq<char>| self@.contains_key(q) <==> before@.remove(
                    k,
                ).contains_key(q) by {
                    if ks.contains(q) {
                        let j = choose|j: int| 0 <= j < ks.len() && ks[j] == q;
                        let jj = if j < i { j } else { j + 1 };
                        assert(old_ks[jj] == q);
                        before.lemma_at(jj);
                        assert(jj != i);
                    }
                    if old_ks.contains(q) && q != k {
                        let j = choose|j: int| 0 <= j < old_ks.len() && old_ks[j] == q;
                        let jj = if j < i { j } else { j - 1 };
                        assert(ks[jj] == q);
                    }
                }
                assert forall|q: Seq<char>| #[trigger]
                    self@.contains_key(q) implies self@[q] == before@.remove(k)[q] by {
                    let j = ks.index_of(q);
                    self.lemma_at(j);
                    let jj = if j < i { j } else { j + 1 };
                    before.lemma_at(jj);
                }
                assert(self@ =~= before@.remove(k));
            }
            Some(value)
        } else {
            assert(self@ =~= before@.remove(k));
            None
        }
    }
}

} // verus!
