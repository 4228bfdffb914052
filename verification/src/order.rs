//! Lexicographic order and stable sorting.
//!
//! Hashes over collections are taken after sorting, so that they do not depend
//! on the order in which the items arrived. The lemmas at the end of this
//! module say exactly when that holds.

use vstd::prelude::*;

verus! {

/// Lexicographic order: the first difference decides, and a proper prefix
/// comes before what it is a prefix of.
pub open spec fn lex_le(a: Seq<int>, b: Seq<int>) -> bool
    decreases a.len(),
{
    if a.len() == 0 {
        true
    } else if b.len() == 0 {
        false
    } else if a[0] != b[0] {
        a[0] < b[0]
    } else {
        lex_le(a.drop_first(), b.drop_first())
    }
}

/// Everything is at most itself.
pub proof fn lemma_lex_reflexive(a: Seq<int>)
    ensures
        lex_le(a, a),
    decreases a.len(),
{
    if a.len() > 0 {
        lemma_lex_reflexive(a.drop_first());
    }
}

/// Any two sequences are comparable.
pub proof fn lemma_lex_total(a: Seq<int>, b: Seq<int>)
    ensures
        lex_le(a, b) || lex_le(b, a),
    decreases a.len(),
{
    if a.len() > 0 && b.len() > 0 && a[0] == b[0] {
        lemma_lex_total(a.drop_first(), b.drop_first());
    }
}

/// Two sequences that are each at most the other are equal.
pub proof fn lemma_lex_antisymmetric(a: Seq<int>, b: Seq<int>)
    requires
        lex_le(a, b),
        lex_le(b, a),
    ensures
        a == b,
    decreases a.len(),
{
    if a.len() > 0 && b.len() > 0 {
        lemma_lex_antisymmetric(a.drop_first(), b.drop_first());
        assert(a =~= seq![a[0]] + a.drop_first());
        assert(b =~= seq![b[0]] + b.drop_first());
    } else {
        assert(a =~= b);
    }
}

/// The order is transitive.
pub proof fn lemma_lex_transitive(a: Seq<int>, b: Seq<int>, c: Seq<int>)
    requires
        lex_le(a, b),
        lex_le(b, c),
    ensures
        lex_le(a, c),
    decreases a.len(),
{
    if a.len() > 0 && b.len() > 0 && c.len() > 0 && a[0] == b[0] && b[0] == c[0] {
        lemma_lex_transitive(a.drop_first(), b.drop_first(), c.drop_first());
    }
}

/// The characters of a string as numbers: their lexicographic order is the
/// order of strings.
pub open spec fn text_rank(s: Seq<char>) -> Seq<int> {
    Seq::new(s.len(), |i: int| s[i] as int)
}

/// Bytes as numbers.
pub open spec fn bytes_rank(s: Seq<u8>) -> Seq<int> {
    Seq::new(s.len(), |i: int| s[i] as int)
}

/// Only equal strings have equal ranks.
pub proof fn lemma_text_rank_injective(a: Seq<char>, b: Seq<char>)
    requires
        text_rank(a) == text_rank(b),
    ensures
        a == b,
{
    assert(text_rank(a).len() == a.len());
    assert(text_rank(b).len() == b.len());
    assert forall|i: int| 0 <= i < a.len() implies a[i] == b[i] by {
        assert(text_rank(a)[i] == a[i] as int);
        assert(text_rank(b)[i] == b[i] as int);
    }
    assert(a =~= b);
}

/// Only equal byte sequences have equal ranks.
pub proof fn lemma_bytes_rank_injective(a: Seq<u8>, b: Seq<u8>)
    requires
        bytes_rank(a) == bytes_rank(b),
    ensures
        a == b,
{
    assert(bytes_rank(a).len() == a.len());
    assert(bytes_rank(b).len() == b.len());
    assert forall|i: int| 0 <= i < a.len() implies a[i] == b[i] by {
        assert(bytes_rank(a)[i] == a[i] as int);
        assert(bytes_rank(b)[i] == b[i] as int);
    }
    assert(a =~= b);
}

/// Compares two strings.
pub fn text_le(a: &str, b: &str) -> (r: bool)
    ensures
        r == lex_le(text_rank(a@), text_rank(b@)),
{
    let x = crate::text::chars_of(a);
    let y = crate::text::chars_of(b);
    let mut i: usize = 0;
    let ghost ra = text_rank(a@);
    let ghost rb = text_rank(b@);
    assert(ra.skip(0) =~= ra && rb.skip(0) =~= rb);
    loop
        invariant
            i <= x@.len(),
            i <= y@.len(),
            x@ == a@,
            y@ == b@,
            ra == text_rank(a@),
            rb == text_rank(b@),
            lex_le(ra, rb) == lex_le(ra.skip(i as int), rb.skip(i as int)),
        decreases x@.len() - i,
    {
        if i == x.len() {
            return true;
        }
        if i == y.len() {
            return false;
        }
        let c = x[i];
        let d = y[i];
        assert(ra.skip(i as int)[0] == c as int);
        assert(rb.skip(i as int)[0] == d as int);
        if c != d {
            return c < d;
        }
        assert(ra.skip(i as int).drop_first() =~= ra.skip(i + 1));
        assert(rb.skip(i as int).drop_first() =~= rb.skip(i + 1));
        i += 1;
    }
}

/// Compares two byte sequences.
pub fn bytes_le(a: &[u8], b: &[u8]) -> (r: bool)
    ensures
        r == lex_le(bytes_rank(a@), bytes_rank(b@)),
{
    let mut i: usize = 0;
    let ghost ra = bytes_rank(a@);
    let ghost rb = bytes_rank(b@);
    assert(ra.skip(0) =~= ra && rb.skip(0) =~= rb);
    loop
        invariant
            i <= a@.len(),
            i <= b@.len(),
            ra == bytes_rank(a@),
            rb == bytes_rank(b@),
            lex_le(ra, rb) == lex_le(ra.skip(i as int), rb.skip(i as int)),
        decreases a@.len() - i,
    {
        if i == a.len() {
            return true;
        }
        if i == b.len() {
            return false;
        }
        let c: u8 = a[i];
        let d: u8 = b[i];
        assert(ra.skip(i as int)[0] == c as int);
        assert(rb.skip(i as int)[0] == d as int);
        if c != d {
            return c < d;
        }
        assert(ra.skip(i as int).drop_first() =~= ra.skip(i + 1));
        assert(rb.skip(i as int).drop_first() =~= rb.skip(i + 1));
        i += 1;
    }
}

/// Inserts `x` into a sorted sequence, behind everything that ranks no higher.
pub open spec fn insert_ranked<M>(s: Seq<M>, x: M, rank: spec_fn(M) -> Seq<int>) -> Seq<M>
    decreases s.len(),
{
    if s.len() == 0 {
        seq![x]
    } else if lex_le(rank(s.last()), rank(x)) {
        s.push(x)
    } else {
        insert_ranked(s.drop_last(), x, rank).push(s.last())
    }
}

/// The stable sort of a sequence: ascending by rank, items of equal rank in
/// their former order.
pub open spec fn stable_sorted<M>(s: Seq<M>, rank: spec_fn(M) -> Seq<int>) -> Seq<M>
    decreases s.len(),
{
    if s.len() == 0 {
        Seq::empty()
    } else {
        insert_ranked(stable_sorted(s.drop_last(), rank), s.last(), rank)
    }
}

/// Whether a sequence ascends by rank.
pub open spec fn ascending<M>(s: Seq<M>, rank: spec_fn(M) -> Seq<int>) -> bool {
    forall|i: int, j: int| 0 <= i <= j < s.len() ==> lex_le(rank(#[trigger] s[i]), rank(#[trigger] s[j]))
}

/// Whether items of equal rank are equal.
pub open spec fn rank_identifies<M>(s: Seq<M>, rank: spec_fn(M) -> Seq<int>) -> bool {
    forall|i: int, j: int|
        0 <= i < s.len() && 0 <= j < s.len() && rank(#[trigger] s[i]) == rank(#[trigger] s[j])
            ==> s[i] == s[j]
}

proof fn lemma_insert_ranked<M>(s: Seq<M>, x: M, rank: spec_fn(M) -> Seq<int>)
    requires
        ascending(s, rank),
    ensures
        ascending(insert_ranked(s, x, rank), rank),
        insert_ranked(s, x, rank).to_multiset() == s.to_multiset().insert(x),
        forall|i: int|
            0 <= i < insert_ranked(s, x, rank).len() ==> #[trigger] insert_ranked(s, x, rank)[i]
                == x || s.contains(insert_ranked(s, x, rank)[i]),
    decreases s.len(),
{
    broadcast use vstd::seq_lib::group_to_multiset_ensures;

    let r = insert_ranked(s, x, rank);
    lemma_lex_reflexive(rank(x));
    if s.len() == 0 {
        assert(r =~= Seq::<M>::empty().push(x));
        assert(s =~= Seq::<M>::empty());
    } else if lex_le(rank(s.last()), rank(x)) {
        assert forall|i: int, j: int| 0 <= i <= j < r.len() implies lex_le(
            rank(#[trigger] r[i]),
            rank(#[trigger] r[j]),
        ) by {
            if j == s.len() && i < s.len() {
                assert(lex_le(rank(s[i]), rank(s[s.len() - 1])));
                lemma_lex_transitive(rank(s[i]), rank(s.last()), rank(x));
            }
        }
        assert forall|i: int| 0 <= i < r.len() implies #[trigger] r[i] == x || s.contains(r[i]) by {
            if i < s.len() {
                assert(s[i] == r[i]);
            }
        }
    } else {
        let t = s.drop_last();
        let inner = insert_ranked(t, x, rank);
        assert(ascending(t, rank)) by {
            assert forall|i: int, j: int| 0 <= i <= j < t.len() implies lex_le(
                rank(#[trigger] t[i]),
                rank(#[trigger] t[j]),
            ) by {
                assert(lex_le(rank(s[i]), rank(s[j])));
            }
        }
        lemma_insert_ranked(t, x, rank);
        lemma_lex_total(rank(s.last()), rank(x));
        lemma_lex_reflexive(rank(s.last()));
        assert forall|i: int, j: int| 0 <= i <= j < r.len() implies lex_le(
            rank(#[trigger] r[i]),
            rank(#[trigger] r[j]),
        ) by {
            if j < inner.len() {
                assert(r[i] == inner[i] && r[j] == inner[j]);
            } else if i < inner.len() {
                assert(r[i] == inner[i]);
                if inner[i] != x {
                    let k = choose|k: int| 0 <= k < t.len() && t[k] == inner[i];
                    assert(lex_le(rank(s[k]), rank(s[s.len() - 1])));
                }
            }
        }
        assert forall|i: int| 0 <= i < r.len() implies #[trigger] r[i] == x || s.contains(r[i]) by {
            if i < inner.len() {
                assert(r[i] == inner[i]);
                if inner[i] != x {
                    let k = choose|k: int| 0 <= k < t.len() && t[k] == inner[i];
                    assert(s[k] == r[i]);
                }
            } else {
                assert(r[i] == s[s.len() - 1]);
            }
        }
        assert(s =~= t.push(s.last()));
        assert(r.to_multiset() =~= s.to_multiset().insert(x));
    }
}

/// Sorting keeps the items and puts them in ascending order.
pub proof fn lemma_stable_sorted<M>(s: Seq<M>, rank: spec_fn(M) -> Seq<int>)
    ensures
        ascending(stable_sorted(s, rank), rank),
        stable_sorted(s, rank).to_multiset() == s.to_multiset(),
        stable_sorted(s, rank).len() == s.len(),
    decreases s.len(),
{
    broadcast use vstd::seq_lib::group_to_multiset_ensures;

    if s.len() > 0 {
        lemma_stable_sorted(s.drop_last(), rank);
        lemma_insert_ranked(stable_sorted(s.drop_last(), rank), s.last(), rank);
        assert(s =~= s.drop_last().push(s.last()));
        assert(stable_sorted(s, rank).to_multiset() =~= s.to_multiset());
    } else {
        assert(s =~= Seq::<M>::empty());
    }
    assert(stable_sorted(s, rank).to_multiset().len() == s.to_multiset().len());
}

proof fn lemma_ascending_unique<M>(a: Seq<M>, b: Seq<M>, rank: spec_fn(M) -> Seq<int>)
    requires
        ascending(a, rank),
        ascending(b, rank),
        a.to_multiset() == b.to_multiset(),
        rank_identifies(a, rank),
    ensures
        a == b,
    decreases a.len(),
{
    broadcast use vstd::seq_lib::group_to_multiset_ensures;

    assert(a.len() == a.to_multiset().len());
    assert(b.len() == b.to_multiset().len());
    if a.len() > 0 {
        assert(a.contains(a[0]));
        assert(b.contains(b[0]));
        assert(a.to_multiset().count(b[0]) > 0);
        assert(b.to_multiset().count(a[0]) > 0);
        assert(a.contains(b[0]));
        assert(b.contains(a[0]));
        let i = choose|i: int| 0 <= i < a.len() && a[i] == b[0];
        let j = choose|j: int| 0 <= j < b.len() && b[j] == a[0];
        assert(lex_le(rank(a[0]), rank(a[i])));
        assert(lex_le(rank(b[0]), rank(b[j])));
        lemma_lex_antisymmetric(rank(a[0]), rank(b[0]));
        assert(a[0] == a[i]);
        let ta = a.remove(0);
        let tb = b.remove(0);
        assert(ascending(ta, rank)) by {
            assert forall|p: int, q: int| 0 <= p <= q < ta.len() implies lex_le(
                rank(#[trigger] ta[p]),
                rank(#[trigger] ta[q]),
            ) by {
                assert(lex_le(rank(a[p + 1]), rank(a[q + 1])));
            }
        }
        assert(ascending(tb, rank)) by {
            assert forall|p: int, q: int| 0 <= p <= q < tb.len() implies lex_le(
                rank(#[trigger] tb[p]),
                rank(#[trigger] tb[q]),
            ) by {
                assert(lex_le(rank(b[p + 1]), rank(b[q + 1])));
            }
        }
        assert(rank_identifies(ta, rank)) by {
            assert forall|p: int, q: int|
                0 <= p < ta.len() && 0 <= q < ta.len() && rank(#[trigger] ta[p]) == rank(
                    #[trigger] ta[q],
                ) implies ta[p] == ta[q] by {
                assert(a[p + 1] == a[q + 1]);
            }
        }
        assert(ta.to_multiset() =~= tb.to_multiset());
        lemma_ascending_unique(ta, tb, rank);
        assert(a =~= seq![a[0]] + ta);
        assert(b =~= seq![b[0]] + tb);
    } else {
        assert(a =~= b);
    }
}

/// Two arrangements of the same items sort to the same sequence, when items of
/// equal rank are equal.
pub proof fn lemma_sorting_forgets_order<M>(s: Seq<M>, t: Seq<M>, rank: spec_fn(M) -> Seq<int>)
    requires
        s.to_multiset() == t.to_multiset(),
        rank_identifies(s, rank),
    ensures
        stable_sorted(s, rank) == stable_sorted(t, rank),
{
    broadcast use vstd::seq_lib::group_to_multiset_ensures;

    lemma_stable_sorted(s, rank);
    lemma_stable_sorted(t, rank);
    let a = stable_sorted(s, rank);
    assert forall|i: int, j: int|
        0 <= i < a.len() && 0 <= j < a.len() && rank(#[trigger] a[i]) == rank(#[trigger] a[j])
        implies a[i] == a[j] by {
        assert(a.contains(a[i]) && a.contains(a[j]));
        assert(s.to_multiset().count(a[i]) > 0 && s.to_multiset().count(a[j]) > 0);
        assert(s.contains(a[i]) && s.contains(a[j]));
        let p = choose|p: int| 0 <= p < s.len() && s[p] == a[i];
        let q = choose|q: int| 0 <= q < s.len() && s[q] == a[j];
        assert(rank(s[p]) == rank(s[q]));
    }
    lemma_ascending_unique(a, stable_sorted(t, rank), rank);
}

/// Values that are sorted by a rank of what they stand for.
pub trait Ranked: Sized {
    /// What a value stands for.
    type Model;

    /// The model of a value.
    spec fn model(&self) -> Self::Model;

    /// The rank by which models are ordered.
    spec fn ranking() -> spec_fn(Self::Model) -> Seq<int>;

    /// Whether this value ranks no higher than the other.
    fn ranks_le(&self, other: &Self) -> (r: bool)
        ensures
            r == lex_le(Self::ranking()(self.model()), Self::ranking()(other.model())),
    ;
}

/// What a sequence of values stands for.
pub open spec fn models<T: Ranked>(s: Seq<T>) -> Seq<T::Model> {
    Seq::new(s.len(), |i: int| s[i].model())
}

/// The ranking of hashes and other byte strings.
pub open spec fn byte_ranking() -> spec_fn(Seq<u8>) -> Seq<int> {
    |b: Seq<u8>| bytes_rank(b)
}

/// The ranking of strings.
pub open spec fn text_ranking() -> spec_fn(Seq<char>) -> Seq<int> {
    |s: Seq<char>| text_rank(s)
}

impl Ranked for [u8; 32] {
    type Model = Seq<u8>;

    open spec fn model(&self) -> Seq<u8> {
        self@
    }

    open spec fn ranking() -> spec_fn(Seq<u8>) -> Seq<int> {
        byte_ranking()
    }

    fn ranks_le(&self, other: &Self) -> (r: bool) {
        bytes_le(self.as_slice(), other.as_slice())
    }
}

impl Ranked for String {
    type Model = Seq<char>;

    open spec fn model(&self) -> Seq<char> {
        self@
    }

    open spec fn ranking() -> spec_fn(Seq<char>) -> Seq<int> {
        text_ranking()
    }

    fn ranks_le(&self, other: &Self) -> (r: bool) {
        text_le(self.as_str(), other.as_str())
    }
}

/// Inserts a value into a sorted vector, behind everything that ranks no
/// higher.
fn insert_into<T: Ranked>(v: &mut Vec<T>, x: T)
    ensures
        models(final(v)@) == insert_ranked(models(old(v)@), x.model(), T::ranking()),
{
    let ghost before = models(v@);
    let ghost m = x.model();
    let mut i: usize = v.len();
    assert(before.take(i as int) =~= before);
    assert(before.skip(i as int) =~= Seq::<T::Model>::empty());
    assert(insert_ranked(before.take(i as int), m, T::ranking()) + before.skip(i as int)
        =~= insert_ranked(before, m, T::ranking()));
    while i > 0 && !v[i - 1].ranks_le(&x)
        invariant
            i <= v@.len(),
            before == models(v@),
            v@ == old(v)@,
            m == x.model(),
            insert_ranked(before, m, T::ranking()) == insert_ranked(
                before.take(i as int),
                m,
                T::ranking(),
            ) + before.skip(i as int),
        decreases i,
    {
        proof {
            let head = before.take(i as int);
            assert(head.last() == v@[i - 1].model());
            assert(head.drop_last() =~= before.take(i - 1));
            assert(insert_ranked(head, m, T::ranking()) + before.skip(i as int)
                =~= insert_ranked(before.take(i - 1), m, T::ranking()) + before.skip(i - 1));
        }
        i -= 1;
    }
    proof {
        let head = before.take(i as int);
        if i > 0 {
            assert(head.last() == v@[i - 1].model());
            assert(insert_ranked(head, m, T::ranking()) == head.push(m));
        } else {
            assert(insert_ranked(head, m, T::ranking()) =~= head.push(m));
        }
        assert(models(v@.insert(i as int, x)) =~= head.push(m) + before.skip(i as int));
    }
    v.insert(i, x);
}

/// Sorts a vector by rank, keeping items of equal rank in their former order.
pub fn sort_ranked<T: Ranked>(v: Vec<T>) -> (r: Vec<T>)
    ensures
        models(r@) == stable_sorted(models(v@), T::ranking()),
{
    let ghost all = models(v@);
    let mut r: Vec<T> = Vec::new();
    assert(models(r@) =~= stable_sorted(all.take(0), T::ranking()));
    for x in it: v.into_iter()
        invariant
            it.seq() == v@,
            all == models(v@),
            models(r@) == stable_sorted(all.take(it.index() as int), T::ranking()),
    {
        proof {
            let k = it.index() as int;
            assert(all.take(k + 1).drop_last() =~= all.take(k));
            assert(all.take(k + 1).last() == x.model());
        }
        insert_into(&mut r, x);
    }
    assert(all.take(all.len() as int) =~= all);
    r
}

/// What the order means: what two sequences begin with alike does not count,
/// the first difference decides, and the shorter comes first where there is
/// none.
pub proof fn lemma_first_difference_decides(
    common: Seq<int>,
    x: int,
    y: int,
    a: Seq<int>,
    b: Seq<int>,
)
    ensures
        lex_le(Seq::empty(), a),
        lex_le(a, Seq::empty()) <==> a.len() == 0,
        lex_le(common + a, common + b) == lex_le(a, b),
        x < y ==> lex_le(common + (seq![x] + a), common + (seq![y] + b)),
        x > y ==> !lex_le(common + (seq![x] + a), common + (seq![y] + b)),
{
    lemma_common_start(common, a, b);
    lemma_common_start(common, seq![x] + a, seq![y] + b);
    assert((seq![x] + a)[0] == x);
    assert((seq![y] + b)[0] == y);
}

proof fn lemma_common_start(common: Seq<int>, a: Seq<int>, b: Seq<int>)
    ensures
        lex_le(common + a, common + b) == lex_le(a, b),
    decreases common.len(),
{
    if common.len() == 0 {
        assert(common + a =~= a);
        assert(common + b =~= b);
    } else {
        lemma_common_start(common.drop_first(), a, b);
        assert((common + a).drop_first() =~= common.drop_first() + a);
        assert((common + b).drop_first() =~= common.drop_first() + b);
        assert((common + a)[0] == common[0]);
        assert((common + b)[0] == common[0]);
    }
}

/// Texts and bytes are ordered by their characters and bytes, from the first.
pub proof fn lemma_ranks_are_the_items(s: Seq<char>, b: Seq<u8>, i: int)
    ensures
        text_rank(s).len() == s.len(),
        0 <= i < s.len() ==> text_rank(s)[i] == s[i] as int,
        bytes_rank(b).len() == b.len(),
        0 <= i < b.len() ==> bytes_rank(b)[i] == b[i],
{
}

/// The items of one rank, in their order.
pub open spec fn of_rank<M>(s: Seq<M>, rank: spec_fn(M) -> Seq<int>, r: Seq<int>) -> Seq<M>
    decreases s.len(),
{
    if s.len() == 0 {
        Seq::empty()
    } else if rank(s.last()) == r {
        of_rank(s.drop_last(), rank, r).push(s.last())
    } else {
        of_rank(s.drop_last(), rank, r)
    }
}

proof fn lemma_insert_is_stable<M>(s: Seq<M>, x: M, rank: spec_fn(M) -> Seq<int>, r: Seq<int>)
    ensures
        of_rank(insert_ranked(s, x, rank), rank, r) == (if rank(x) == r {
            of_rank(s, rank, r).push(x)
        } else {
            of_rank(s, rank, r)
        }),
    decreases s.len(),
{
    if s.len() == 0 {
        let one = seq![x];
        assert(one.drop_last() =~= Seq::<M>::empty());
        assert(one.last() == x);
        assert(of_rank(one.drop_last(), rank, r) =~= Seq::<M>::empty());
    } else if lex_le(rank(s.last()), rank(x)) {
        assert(s.push(x).drop_last() =~= s);
    } else {
        let inner = insert_ranked(s.drop_last(), x, rank);
        lemma_insert_is_stable(s.drop_last(), x, rank, r);
        assert(inner.push(s.last()).drop_last() =~= inner);
        lemma_lex_reflexive(rank(x));
    }
}

/// Sorting is stable: items of equal rank keep their order.
pub proof fn lemma_sorting_is_stable<M>(s: Seq<M>, rank: spec_fn(M) -> Seq<int>, r: Seq<int>)
    ensures
        of_rank(stable_sorted(s, rank), rank, r) == of_rank(s, rank, r),
    decreases s.len(),
{
    if s.len() > 0 {
        lemma_sorting_is_stable(s.drop_last(), rank, r);
        lemma_insert_is_stable(stable_sorted(s.drop_last(), rank), s.last(), rank, r);
    }
}

} // verus!
