//! The state of the application: a versioned key-value store.

use crate::codec::{encodable, lemma_same_split, lemma_string_bytes_delimited, lemma_u64_bytes, put,
    put_text, put_u64, string_bytes, u64_bytes, utf8};
use crate::digest::{sha256, sha256_digest};
use crate::table::{keys_ascend, lemma_sorted_keys_exist, sorted_keys, Table};
use vstd::prelude::*;

verus! {

/// A value and the version of the state that wrote it.
#[derive(Debug)]
pub struct VersionedValue {
    pub value: Vec<u8>,
    pub version: u64,
}

/// A versioned value as a mathematical value.
pub struct ValueModel {
    pub value: Seq<u8>,
    pub version: u64,
}

impl View for VersionedValue {
    type V = ValueModel;

    open spec fn view(&self) -> ValueModel {
        ValueModel { value: self.value@, version: self.version }
    }
}

/// Versioned values by key.
pub type Values = Map<Seq<char>, ValueModel>;

/// The state as a mathematical value.
pub struct StateModel {
    pub store: Values,
    pub height: u64,
    pub app_version: u64,
}

/// The models of stored values.
pub open spec fn value_map(m: Map<Seq<char>, VersionedValue>) -> Values {
    Map::new(|k: Seq<char>| m.contains_key(k), |k: Seq<char>| m[k]@)
}

/// The bytes of a value, if it is stored.
pub open spec fn value_at(m: Values, key: Seq<char>) -> Option<Seq<u8>> {
    if m.contains_key(key) {
        Some(m[key].value)
    } else {
        None
    }
}

/// An optional byte string as a sequence.
pub open spec fn option_bytes(v: Option<Vec<u8>>) -> Option<Seq<u8>> {
    match v {
        Some(b) => Some(b@),
        None => None,
    }
}

/// The state of the application: values by key, each with the version that
/// wrote it, the height of the last block, and a version that grows with each
/// commit.
pub struct AppState {
    store: Table<VersionedValue>,
    height: u64,
    app_version: u64,
}

impl View for AppState {
    type V = StateModel;

    closed spec fn view(&self) -> StateModel {
        StateModel {
            store: value_map(self.store@),
            height: self.height,
            app_version: self.app_version,
        }
    }
}

/// The state that nothing was written to.
pub open spec fn empty_state() -> StateModel {
    StateModel { store: Map::empty(), height: 0, app_version: 0 }
}

/// The state with a value set.
pub open spec fn with_value(s: StateModel, key: Seq<char>, value: Seq<u8>) -> StateModel {
    StateModel {
        store: s.store.insert(key, ValueModel { value, version: s.app_version }),
        ..s
    }
}

/// The state without a key.
pub open spec fn without_key(s: StateModel, key: Seq<char>) -> StateModel {
    StateModel { store: s.store.remove(key), ..s }
}

/// A pair of a key and a value as sequences.
pub open spec fn pair_model(p: (String, Vec<u8>)) -> (Seq<char>, Seq<u8>) {
    (p.0@, p.1@)
}

/// Pairs as sequences.
pub open spec fn pair_models(s: Seq<(String, Vec<u8>)>) -> Seq<(Seq<char>, Seq<u8>)> {
    Seq::new(s.len(), |i: int| pair_model(s[i]))
}

/// The state with a batch of values set, in order.
pub open spec fn with_batch(s: StateModel, batch: Seq<(Seq<char>, Seq<u8>)>) -> StateModel
    decreases batch.len(),
{
    if batch.len() == 0 {
        s
    } else {
        let t = with_batch(s, batch.drop_last());
        with_value(t, batch.last().0, batch.last().1)
    }
}

/// The canonical encoding of one entry: both parts with their lengths.
pub open spec fn entry_bytes(key: Seq<char>, value: Seq<u8>) -> Seq<u8> {
    u64_bytes(utf8(key).len() as u64) + utf8(key) + u64_bytes(value.len() as u64) + value
}

/// The hashes of entries, one behind the other.
pub open spec fn entry_hashes(m: Values, keys: Seq<Seq<char>>) -> Seq<u8>
    decreases keys.len(),
{
    if keys.len() == 0 {
        Seq::empty()
    } else {
        entry_hashes(m, keys.drop_last()) + sha256_digest(
            entry_bytes(keys.last(), m[keys.last()].value),
        )
    }
}

/// The hash of the whole store: SHA-256 over the hashes of all entries, by
/// ascending key.
pub open spec fn store_hash(m: Values) -> Seq<u8> {
    sha256_digest(entry_hashes(m, sorted_keys(m.dom())))
}

/// An entry of the store as sequences, with its version.
pub open spec fn entry_model(e: (&str, &[u8], u64)) -> (Seq<char>, Seq<u8>, u64) {
    (e.0@, e.1@, e.2)
}

/// The entries of a store under the given keys.
pub open spec fn entries_of(m: Values, keys: Seq<Seq<char>>) -> Seq<(Seq<char>, Seq<u8>, u64)> {
    Seq::new(keys.len(), |i: int| (keys[i], m[keys[i]].value, m[keys[i]].version))
}

/// A part of a state as sequences.
pub open spec fn part_model(p: (String, Vec<u8>, u64)) -> (Seq<char>, Seq<u8>, u64) {
    (p.0@, p.1@, p.2)
}

/// Parts of a state as sequences.
pub open spec fn part_models(s: Seq<(String, Vec<u8>, u64)>) -> Seq<(Seq<char>, Seq<u8>, u64)> {
    Seq::new(s.len(), |i: int| part_model(s[i]))
}

/// The store that parts make up; a later part wins over an earlier one.
pub open spec fn store_of(parts: Seq<(Seq<char>, Seq<u8>, u64)>) -> Values
    decreases parts.len(),
{
    if parts.len() == 0 {
        Map::empty()
    } else {
        let (key, value, version) = parts.last();
        store_of(parts.drop_last()).insert(key, ValueModel { value, version })
    }
}

/// Copies bytes.
fn copy_bytes(b: &[u8]) -> (r: Vec<u8>)
    ensures
        r@ == b@,
{
    let mut r: Vec<u8> = Vec::new();
    put(&mut r, b);
    assert(r@ =~= b@);
    r
}

impl AppState {
    /// Whether the state is consistent.
    pub closed spec fn valid(&self) -> bool {
        self.store.wf()
    }

    /// An empty state at height zero.
    pub fn new() -> (r: Self)
        ensures
            r.valid(),
            r@ == empty_state(),
    {
        let r = AppState { store: Table::new(), height: 0, app_version: 0 };
        assert(r@.store =~= Map::<Seq<char>, ValueModel>::empty());
        r
    }

    /// Puts a value under a key, with a version.
    fn put_value(&mut self, key: String, value: Vec<u8>, version: u64) -> (r: Option<Vec<u8>>)
        requires
            old(self).valid(),
        ensures
            final(self).valid(),
            final(self)@ == (StateModel {
                store: old(self)@.store.insert(key@, ValueModel { value: value@, version }),
                ..old(self)@
            }),
            option_bytes(r) == value_at(old(self)@.store, key@),
    {
        let ghost before = self.store@;
        let ghost v = VersionedValue { value, version };
        let previous = self.store.insert(key, VersionedValue { value, version });
        assert(value_map(self.store@) =~= value_map(before).insert(key@, v@));
        match previous {
            Some(old_value) => Some(old_value.value),
            None => None,
        }
    }

    /// Sets a value at the current version, and returns the previous one.
    pub fn apply(&mut self, key: &str, value: &[u8]) -> (r: Option<Vec<u8>>)
        requires
            old(self).valid(),
        ensures
            final(self).valid(),
            final(self)@ == with_value(old(self)@, key@, value@),
            option_bytes(r) == value_at(old(self)@.store, key@),
    {
        let version: u64 = self.app_version;
        self.put_value(key.to_owned(), copy_bytes(value), version)
    }

    /// Sets a batch of values in order.
    pub fn apply_batch(&mut self, entries: Vec<(String, Vec<u8>)>)
        requires
            old(self).valid(),
        ensures
            final(self).valid(),
            final(self)@ == with_batch(old(self)@, pair_models(entries@)),
    {
        let ghost start = self@;
        let ghost all = pair_models(entries@);
        assert(all.take(0) =~= Seq::<(Seq<char>, Seq<u8>)>::empty());
        for p in it: entries.into_iter()
            invariant
                it.seq() == entries@,
                all == pair_models(entries@),
                self.valid(),
                self@ == with_batch(start, all.take(it.index() as int)),
        {
            proof {
                let k = it.index() as int;
                assert(all.take(k + 1).drop_last() =~= all.take(k));
                assert(all.take(k + 1).last() == pair_model(p));
            }
            let (key, value) = p;
            let version: u64 = self.app_version;
            self.put_value(key, value, version);
        }
        assert(all.take(all.len() as int) =~= all);
    }

    /// The value of a key.
    pub fn get(&self, key: &str) -> (r: Option<&[u8]>)
        requires
            self.valid(),
        ensures
            match r {
                Some(v) => value_at(self@.store, key@) == Some(v@),
                None => value_at(self@.store, key@) is None,
            },
    {
        match self.store.get(key) {
            Some(v) => Some(v.value.as_slice()),
            None => None,
        }
    }

    /// Whether a key is there.
    pub fn has(&self, key: &str) -> (r: bool)
        requires
            self.valid(),
        ensures
            r == self@.store.contains_key(key@),
    {
        self.store.contains(key)
    }

    /// Removes a key, and returns its value.
    pub fn delete(&mut self, key: &str) -> (r: Option<Vec<u8>>)
        requires
            old(self).valid(),
        ensures
            final(self).valid(),
            final(self)@ == without_key(old(self)@, key@),
            option_bytes(r) == value_at(old(self)@.store, key@),
    {
        let ghost before = self.store@;
        let removed = self.store.remove(key);
        assert(value_map(self.store@) =~= value_map(before).remove(key@));
        match removed {
            Some(v) => Some(v.value),
            None => None,
        }
    }

    /// The hash of the whole store. It does not depend on versions, on the
    /// height or on the order in which values were set.
    pub fn root_hash(&self) -> (r: [u8; 32])
        requires
            self.valid(),
        ensures
            r@ == store_hash(self@.store),
    {
        let ghost keys = self.store.ordered();
        let ghost m = self@.store;
        let mut hashes: Vec<u8> = Vec::new();
        let mut i: usize = 0;
        let n: usize = self.store.len();
        proof {
            self.store.lemma_ordered();
            assert(m.dom() =~= self.store@.dom());
            assert(keys.take(0) =~= Seq::<Seq<char>>::empty());
        }
        while i < n
            invariant
                self.valid(),
                n == keys.len(),
                i <= n,
                keys == self.store.ordered(),
                m == self@.store,
                m.dom() == self.store@.dom(),
                keys.to_set() == m.dom(),
                hashes@ == entry_hashes(m, keys.take(i as int)),
            decreases n - i,
        {
            proof {
                assert(keys.take(i + 1).drop_last() =~= keys.take(i as int));
                assert(keys.to_set().contains(keys[i as int]));
            }
            let key = self.store.key_at(i);
            let v = self.store.value_at(i);
            let key_bytes = key.as_str().as_bytes();
            let mut buf: Vec<u8> = Vec::new();
            put_u64(&mut buf, key_bytes.len() as u64);
            put_text(&mut buf, key.as_str());
            put_u64(&mut buf, v.value.len() as u64);
            put(&mut buf, v.value.as_slice());
            assert(buf@ =~= entry_bytes(key@, v.value@));
            let h = sha256(buf.as_slice());
            put(&mut hashes, h.as_slice());
            i += 1;
        }
        assert(keys.take(i as int) =~= keys);
        sha256(hashes.as_slice())
    }

    /// The height of the last block.
    pub fn height(&self) -> (r: u64)
        ensures
            r == self@.height,
    {
        self.height
    }

    /// Sets the height of the last block.
    pub fn set_height(&mut self, height: u64)
        requires
            old(self).valid(),
        ensures
            final(self).valid(),
            final(self)@ == (StateModel { height, ..old(self)@ }),
    {
        self.height = height;
    }

    /// The version of the state.
    pub fn app_version(&self) -> (r: u64)
        ensures
            r == self@.app_version,
    {
        self.app_version
    }

    /// Counts a commit.
    pub fn increment_version(&mut self)
        requires
            old(self).valid(),
            old(self)@.app_version < u64::MAX,
        ensures
            final(self).valid(),
            final(self)@ == (StateModel {
                app_version: (old(self)@.app_version + 1) as u64,
                ..old(self)@
            }),
    {
        self.app_version = self.app_version + 1;
    }

    /// The number of keys.
    pub fn len(&self) -> (r: usize)
        requires
            self.valid(),
        ensures
            r == sorted_keys(self@.store.dom()).len(),
            self@.store.dom().finite(),
            r == self@.store.dom().len(),
    {
        proof {
            self.store.lemma_ordered();
            assert(self@.store.dom() =~= self.store@.dom());
            self.store.ordered().unique_seq_to_set();
            vstd::seq_lib::seq_to_set_is_finite(self.store.ordered());
        }
        self.store.len()
    }

    /// Whether there is no key.
    pub fn is_empty(&self) -> (r: bool)
        requires
            self.valid(),
        ensures
            r == (self@.store == Map::<Seq<char>, ValueModel>::empty()),
    {
        proof {
            self.store.lemma_ordered();
            assert(self@.store.dom() =~= self.store@.dom());
            if self.store.ordered().len() == 0 {
                assert(self.store.ordered().to_set() =~= Set::<Seq<char>>::empty());
                assert(self@.store =~= Map::<Seq<char>, ValueModel>::empty());
            } else {
                assert(self.store.ordered().to_set().contains(self.store.ordered()[0]));
                assert(self@.store.contains_key(self.store.ordered()[0]));
            }
        }
        self.store.len() == 0
    }

    /// All entries with their versions, by ascending key.
    pub fn entries(&self) -> (r: Vec<(&str, &[u8], u64)>)
        requires
            self.valid(),
        ensures
            Seq::new(r@.len(), |i: int| entry_model(r@[i])) == entries_of(
                self@.store,
                sorted_keys(self@.store.dom()),
            ),
    {
        let ghost keys = self.store.ordered();
        let ghost m = self@.store;
        let mut r: Vec<(&str, &[u8], u64)> = Vec::new();
        let mut i: usize = 0;
        let n: usize = self.store.len();
        proof {
            self.store.lemma_ordered();
            assert(m.dom() =~= self.store@.dom());
        }
        while i < n
            invariant
                self.valid(),
                n == keys.len(),
                i <= n,
                keys == self.store.ordered(),
                m == self@.store,
                m.dom() == self.store@.dom(),
                keys.to_set() == m.dom(),
                r@.len() == i,
                forall|j: int|
                    0 <= j < i ==> entry_model(#[trigger] r@[j]) == (
                        keys[j],
                        m[keys[j]].value,
                        m[keys[j]].version,
                    ),
            decreases n - i,
        {
            assert(keys.to_set().contains(keys[i as int]));
            let key = self.store.key_at(i);
            let v = self.store.value_at(i);
            r.push((key.as_str(), v.value.as_slice(), v.version));
            i += 1;
        }
        assert(Seq::new(r@.len(), |i: int| entry_model(r@[i])) =~= entries_of(m, keys));
        r
    }

    /// A copy of the state.
    pub fn duplicate(&self) -> (r: Self)
        requires
            self.valid(),
        ensures
            r.valid(),
            r@ == self@,
    {
        let entries = self.entries();
        let ghost keys = sorted_keys(self@.store.dom());
        let ghost models = Seq::new(entries@.len(), |i: int| entry_model(entries@[i]));
        let mut parts: Vec<(String, Vec<u8>, u64)> = Vec::new();
        let mut i: usize = 0;
        while i < entries.len()
            invariant
                i <= entries@.len(),
                parts@.len() == i,
                models == Seq::new(entries@.len(), |i: int| entry_model(entries@[i])),
                forall|j: int| 0 <= j < i ==> part_model(#[trigger] parts@[j]) == models[j],
            decreases entries.len() - i,
        {
            let (key, value, version) = entries[i];
            parts.push((key.to_owned(), copy_bytes(value), version));
            assert(models[i as int] == entry_model(entries@[i as int]));
            i += 1;
        }
        proof {
            assert(part_models(parts@) =~= models);
            self.store.lemma_ordered();
            assert(self@.store.dom() =~= self.store@.dom());
            lemma_entries_make_the_store(self@.store);
        }
        AppState::from_parts(parts, self.height, self.app_version)
    }

    /// The state that entries, a height and a version make up.
    pub fn from_parts(entries: Vec<(String, Vec<u8>, u64)>, height: u64, app_version: u64) -> (r:
        Self)
        ensures
            r.valid(),
            r@ == (StateModel { store: store_of(part_models(entries@)), height, app_version }),
    {
        let ghost all = part_models(entries@);
        let mut r = AppState::new();
        r.height = height;
        r.app_version = app_version;
        assert(all.take(0) =~= Seq::<(Seq<char>, Seq<u8>, u64)>::empty());
        for p in it: entries.into_iter()
            invariant
                it.seq() == entries@,
                all == part_models(entries@),
                r.valid(),
                r@ == (StateModel {
                    store: store_of(all.take(it.index() as int)),
                    height,
                    app_version,
                }),
        {
            proof {
                let k = it.index() as int;
                assert(all.take(k + 1).drop_last() =~= all.take(k));
                assert(all.take(k + 1).last() == part_model(p));
            }
            let (key, value, version) = p;
            r.put_value(key, value, version);
        }
        assert(all.take(all.len() as int) =~= all);
        r
    }
}

impl Default for AppState {
    fn default() -> (r: Self)
        ensures
            r.valid(),
            r@ == empty_state(),
    {
        AppState::new()
    }
}

proof fn lemma_store_of_entries(m: Values, keys: Seq<Seq<char>>, n: int)
    requires
        0 <= n <= keys.len(),
        keys_ascend(keys),
    ensures
        ({
            let s = store_of(entries_of(m, keys).take(n));
            &&& forall|k: Seq<char>| #[trigger] s.contains_key(k) <==> keys.take(n).contains(k)
            &&& forall|k: Seq<char>|
                keys.take(n).contains(k) ==> #[trigger] s[k] == (ValueModel {
                    value: m[k].value,
                    version: m[k].version,
                })
        }),
    decreases n,
{
    let parts = entries_of(m, keys).take(n);
    let s = store_of(parts);
    if n > 0 {
        let head = keys.take(n - 1);
        let all = keys.take(n);
        lemma_store_of_entries(m, keys, n - 1);
        assert(parts.drop_last() =~= entries_of(m, keys).take(n - 1));
        let last = keys[n - 1];
        let before = store_of(entries_of(m, keys).take(n - 1));
        let value = ValueModel { value: m[last].value, version: m[last].version };
        assert(parts.last() == (last, m[last].value, m[last].version));
        assert(s == before.insert(last, value));
        assert(all =~= head.push(last));
        assert forall|k: Seq<char>| #[trigger] s.contains_key(k) <==> all.contains(k) by {
            assert(before.contains_key(k) <==> head.contains(k));
            if head.contains(k) {
                let i = choose|i: int| 0 <= i < n - 1 && head[i] == k;
                assert(all[i] == k);
            }
            assert(all[n - 1] == last);
            if all.contains(k) && k != last {
                let i = choose|i: int| 0 <= i < n && all[i] == k;
                assert(head[i] == k);
            }
        }
        assert forall|k: Seq<char>| all.contains(k) implies #[trigger] s[k] == (ValueModel {
            value: m[k].value,
            version: m[k].version,
        }) by {
            if k != last {
                let i = choose|i: int| 0 <= i < n && all[i] == k;
                assert(head[i] == k);
                assert(head.contains(k));
                assert(before[k] == s[k]);
            }
        }
    }
}

/// A store is made up again by its own entries: nothing is lost between a
/// state and its parts.
pub proof fn lemma_entries_make_the_store(m: Values)
    requires
        m.dom().finite(),
    ensures
        store_of(entries_of(m, sorted_keys(m.dom()))) == m,
{
    let keys = sorted_keys(m.dom());
    lemma_sorted_keys_exist(m.dom());
    lemma_store_of_entries(m, keys, keys.len() as int);
    let parts = entries_of(m, keys);
    assert(parts.take(keys.len() as int) =~= parts);
    assert(keys.take(keys.len() as int) =~= keys);
    let s = store_of(parts);
    assert forall|k: Seq<char>| #[trigger] s.contains_key(k) <==> m.contains_key(k) by {
        assert(keys.to_set().contains(k) <==> keys.contains(k));
    }
    assert forall|k: Seq<char>| #[trigger] m.contains_key(k) implies s[k] == m[k] by {
        assert(keys.to_set().contains(k));
        assert(keys.contains(k));
    }
    assert(s =~= m);
}

/// The hash of a state depends on its keys and values alone: two stores with
/// the same values have the same hash, whatever versions wrote them.
pub proof fn lemma_hash_depends_on_values_alone(a: Values, b: Values)
    requires
        a.dom() == b.dom(),
        forall|k: Seq<char>| #[trigger] a.contains_key(k) ==> a[k].value == b[k].value,
        a.dom().finite(),
    ensures
        store_hash(a) == store_hash(b),
{
    let keys = sorted_keys(a.dom());
    lemma_sorted_keys_exist(a.dom());
    lemma_entry_hashes_agree(a, b, keys);
}

proof fn lemma_entry_hashes_agree(a: Values, b: Values, keys: Seq<Seq<char>>)
    requires
        forall|i: int| 0 <= i < keys.len() ==> a.contains_key(#[trigger] keys[i]),
        forall|k: Seq<char>| #[trigger] a.contains_key(k) ==> a[k].value == b[k].value,
    ensures
        entry_hashes(a, keys) == entry_hashes(b, keys),
    decreases keys.len(),
{
    if keys.len() > 0 {
        let rest = keys.drop_last();
        assert forall|i: int| 0 <= i < rest.len() implies a.contains_key(#[trigger] rest[i]) by {
            assert(rest[i] == keys[i]);
        }
        lemma_entry_hashes_agree(a, b, rest);
        assert(a.contains_key(keys[keys.len() - 1]));
    }
}

/// Setting two different keys in either order gives the same state.
pub proof fn lemma_values_are_set_in_any_order(
    s: StateModel,
    j: Seq<char>,
    v: Seq<u8>,
    k: Seq<char>,
    w: Seq<u8>,
)
    requires
        j != k,
    ensures
        with_value(with_value(s, j, v), k, w) == with_value(with_value(s, k, w), j, v),
{
    assert(with_value(with_value(s, j, v), k, w).store =~= with_value(
        with_value(s, k, w),
        j,
        v,
    ).store);
}

/// A value is read back as it was set; removing it leaves nothing, and neither
/// touches another key.
pub proof fn lemma_values_are_read_back(
    s: StateModel,
    key: Seq<char>,
    value: Seq<u8>,
    other: Seq<char>,
)
    requires
        other != key,
    ensures
        value_at(with_value(s, key, value).store, key) == Some(value),
        value_at(with_value(s, key, value).store, other) == value_at(s.store, other),
        value_at(without_key(s, key).store, key) is None,
        value_at(without_key(s, key).store, other) == value_at(s.store, other),
{
}

/// Different entries have different encodings.
pub proof fn lemma_entry_bytes_injective(
    a: Seq<char>,
    v: Seq<u8>,
    b: Seq<char>,
    w: Seq<u8>,
)
    requires
        encodable(a),
        encodable(b),
        entry_bytes(a, v) == entry_bytes(b, w),
    ensures
        a == b,
        v == w,
{
    let x = u64_bytes(v.len() as u64) + v;
    let y = u64_bytes(w.len() as u64) + w;
    assert(entry_bytes(a, v) =~= string_bytes(a) + x);
    assert(entry_bytes(b, w) =~= string_bytes(b) + y);
    lemma_string_bytes_delimited(a, x, b, y);
    lemma_u64_bytes(v.len() as u64, w.len() as u64);
    lemma_u64_bytes(w.len() as u64, v.len() as u64);
    lemma_same_split(u64_bytes(v.len() as u64), v, u64_bytes(w.len() as u64), w);
}

/// What setting and removing do to a state: the key takes the value with the
/// version of the state, or goes; nothing else changes.
pub proof fn lemma_changes_are_exact(s: StateModel, key: Seq<char>, value: Seq<u8>)
    ensures
        ({
            let t = with_value(s, key, value);
            let u = without_key(s, key);
            &&& t.store.dom() == s.store.dom().insert(key)
            &&& t.store[key].value == value && t.store[key].version == s.app_version
            &&& u.store.dom() == s.store.dom().remove(key)
            &&& forall|k: Seq<char>|
                k != key && s.store.contains_key(k) ==> #[trigger] t.store[k] == s.store[k]
                    && u.store[k] == s.store[k]
            &&& t.height == s.height && t.app_version == s.app_version
            &&& u.height == s.height && u.app_version == s.app_version
            &&& empty_state().store == Map::<Seq<char>, ValueModel>::empty()
            &&& empty_state().height == 0 && empty_state().app_version == 0
        }),
        value_at(s.store, key) is Some <==> s.store.contains_key(key),
        value_at(s.store, key) is Some ==> value_at(s.store, key)->0 == s.store[key].value,
{
    assert(with_value(s, key, value).store.dom() =~= s.store.dom().insert(key));
    assert(without_key(s, key).store.dom() =~= s.store.dom().remove(key));
}

/// A batch sets its pairs one after the other, so that the last of a key
/// stands.
pub proof fn lemma_batches_are_exact(
    s: StateModel,
    batch: Seq<(Seq<char>, Seq<u8>)>,
    key: Seq<char>,
    value: Seq<u8>,
)
    ensures
        with_batch(s, Seq::empty()) == s,
        with_batch(s, batch.push((key, value))) == with_value(with_batch(s, batch), key, value),
        with_batch(s, batch).height == s.height,
        with_batch(s, batch).app_version == s.app_version,
        (forall|i: int| 0 <= i < batch.len() ==> (#[trigger] batch[i]).0 != key) ==> value_at(
            with_batch(s, batch).store,
            key,
        ) == value_at(s.store, key),
    decreases batch.len(),
{
    assert(batch.push((key, value)).drop_last() =~= batch);
    if batch.len() > 0 {
        let less = batch.drop_last();
        lemma_batches_are_exact(s, less, key, value);
        if forall|i: int| 0 <= i < batch.len() ==> (#[trigger] batch[i]).0 != key {
            assert(batch[batch.len() - 1].0 != key);
            assert forall|i: int| 0 <= i < less.len() implies (#[trigger] less[i]).0 != key by {
                assert(less[i] == batch[i]);
            }
        }
    }
}

/// The store that parts make up holds each under its key, the last of a key.
pub proof fn lemma_parts_make_the_store(
    parts: Seq<(Seq<char>, Seq<u8>, u64)>,
    key: Seq<char>,
    value: Seq<u8>,
    version: u64,
)
    ensures
        store_of(Seq::empty()) == Map::<Seq<char>, ValueModel>::empty(),
        store_of(parts.push((key, value, version))) == store_of(parts).insert(
            key,
            ValueModel { value, version },
        ),
{
    assert(parts.push((key, value, version)).drop_last() =~= parts);
}

/// The hash of a state covers every value: where two stores differ in the value
/// of one key alone, what is hashed of them differs, unless SHA-256 gives the
/// two entries the same hash.
pub proof fn lemma_hash_covers_every_value(
    a: Values,
    b: Values,
    keys: Seq<Seq<char>>,
    key: Seq<char>,
)
    requires
        keys.no_duplicates(),
        keys.contains(key),
        forall|k: Seq<char>| #[trigger] keys.contains(k) && k != key ==> a[k].value == b[k].value,
        entry_hashes(a, keys) == entry_hashes(b, keys),
    ensures
        sha256_digest(entry_bytes(key, a[key].value)) == sha256_digest(
            entry_bytes(key, b[key].value),
        ),
    decreases keys.len(),
{
    let less = keys.drop_last();
    let last = keys.last();
    assert(keys[keys.len() - 1] == last);
    if last == key {
        assert forall|k: Seq<char>| #[trigger] less.contains(k) implies a[k].value
            == b[k].value by {
            let i = choose|i: int| 0 <= i < less.len() && less[i] == k;
            assert(keys[i] == k);
            assert(keys.contains(k));
        }
        lemma_same_entry_hashes(a, b, less);
        let x = entry_hashes(a, less);
        let p = sha256_digest(entry_bytes(key, a[key].value));
        let q = sha256_digest(entry_bytes(key, b[key].value));
        lemma_same_split(x, p, x, q);
    } else {
        assert(keys.contains(last));
        let h = sha256_digest(entry_bytes(last, a[last].value));
        let x = entry_hashes(a, less);
        let y = entry_hashes(b, less);
        assert(a[last].value == b[last].value);
        assert(entry_hashes(a, keys) == x + h);
        assert(entry_hashes(b, keys) == y + h);
        assert((x + h).len() == (y + h).len());
        lemma_same_split(x, h, y, h);
        let i = choose|i: int| 0 <= i < keys.len() && keys[i] == key;
        assert(less[i] == key);
        assert forall|k: Seq<char>| #[trigger] less.contains(k) && k != key implies a[k].value
            == b[k].value by {
            let j = choose|j: int| 0 <= j < less.len() && less[j] == k;
            assert(keys[j] == k);
            assert(keys.contains(k));
        }
        lemma_hash_covers_every_value(a, b, less, key);
    }
}

proof fn lemma_same_entry_hashes(a: Values, b: Values, keys: Seq<Seq<char>>)
    requires
        forall|k: Seq<char>| #[trigger] keys.contains(k) ==> a[k].value == b[k].value,
    ensures
        entry_hashes(a, keys) == entry_hashes(b, keys),
    decreases keys.len(),
{
    if keys.len() > 0 {
        let less = keys.drop_last();
        assert(keys[keys.len() - 1] == keys.last());
        assert(keys.contains(keys.last()));
        assert forall|k: Seq<char>| #[trigger] less.contains(k) implies a[k].value
            == b[k].value by {
            let i = choose|i: int| 0 <= i < less.len() && less[i] == k;
            assert(keys[i] == k);
            assert(keys.contains(k));
        }
        lemma_same_entry_hashes(a, b, less);
    }
}

} // verus!
