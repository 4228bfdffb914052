//! The canonical binary encoding: little-endian numbers, length-prefixed
//! strings, flagged options and domain-separated hashes.

use crate::digest::{sha256, sha256_digest};
use crate::order::{byte_ranking, lemma_bytes_rank_injective, lemma_sorting_forgets_order, models,
    sort_ranked, stable_sorted};
use crate::text::option_text;
use vstd::bytes::*;
use vstd::prelude::*;
use vstd::utf8::encode_utf8;

verus! {

/// The UTF-8 bytes of a text.
pub open spec fn utf8(s: Seq<char>) -> Seq<u8> {
    encode_utf8(s)
}

/// The eight little-endian bytes of a number.
pub open spec fn u64_bytes(v: u64) -> Seq<u8> {
    spec_u64_to_le_bytes(v)
}

/// A flag byte, then the number if there is one.
pub open spec fn option_u64_bytes(v: Option<u64>) -> Seq<u8> {
    match v {
        Some(n) => seq![1u8] + u64_bytes(n),
        None => seq![0u8],
    }
}

/// A length prefix, then the UTF-8 bytes.
pub open spec fn string_bytes(s: Seq<char>) -> Seq<u8> {
    u64_bytes(utf8(s).len() as u64) + utf8(s)
}

/// A flag byte, then the length-prefixed text if there is one.
pub open spec fn option_string_bytes(v: Option<Seq<char>>) -> Seq<u8> {
    match v {
        Some(s) => seq![1u8] + string_bytes(s),
        None => seq![0u8],
    }
}

/// The bytes that are hashed for a payload under a domain tag.
pub open spec fn domain_bytes(tag: Seq<char>, payload: Seq<u8>) -> Seq<u8> {
    utf8(tag) + payload
}

/// A hash under a domain tag.
pub open spec fn domain_hash(tag: Seq<char>, payload: Seq<u8>) -> Seq<u8> {
    sha256_digest(domain_bytes(tag, payload))
}

/// Appends bytes.
pub fn put(buf: &mut Vec<u8>, bytes: &[u8])
    ensures
        final(buf)@ == old(buf)@ + bytes@,
{
    let ghost before = buf@;
    buf.extend_from_slice(bytes);
    assert(buf@ =~= before + bytes@);
}

/// Appends the UTF-8 bytes of a text.
pub fn put_text(buf: &mut Vec<u8>, s: &str)
    ensures
        final(buf)@ == old(buf)@ + utf8(s@),
{
    put(buf, s.as_bytes());
}

/// Appends a number.
pub fn put_u64(buf: &mut Vec<u8>, v: u64)
    ensures
        final(buf)@ == old(buf)@ + u64_bytes(v),
{
    let b = u64_to_le_bytes(v);
    put(buf, b.as_slice());
}

/// Appends one byte.
pub fn put_u8(buf: &mut Vec<u8>, v: u8)
    ensures
        final(buf)@ == old(buf)@ + seq![v],
{
    let ghost before = buf@;
    buf.push(v);
    assert(buf@ =~= before + seq![v]);
}

/// Appends an optional number.
pub fn put_option_u64(buf: &mut Vec<u8>, v: Option<u64>)
    ensures
        final(buf)@ == old(buf)@ + option_u64_bytes(v),
{
    let ghost before = buf@;
    match v {
        Some(n) => {
            put_u8(buf, 1);
            put_u64(buf, n);
        },
        None => {
            put_u8(buf, 0);
        },
    }
    assert(buf@ =~= before + option_u64_bytes(v));
}

/// Appends a length-prefixed text.
pub fn put_string(buf: &mut Vec<u8>, s: &str)
    ensures
        final(buf)@ == old(buf)@ + string_bytes(s@),
{
    let ghost before = buf@;
    let bytes = s.as_bytes();
    put_u64(buf, bytes.len() as u64);
    put(buf, bytes);
    assert(buf@ =~= before + string_bytes(s@));
}

/// Appends an optional text.
pub fn put_option_string(buf: &mut Vec<u8>, v: &Option<String>)
    ensures
        final(buf)@ == old(buf)@ + option_string_bytes(option_text(*v)),
{
    let ghost before = buf@;
    match v {
        Some(s) => {
            put_u8(buf, 1);
            put_string(buf, s.as_str());
        },
        None => {
            put_u8(buf, 0);
        },
    }
    assert(buf@ =~= before + option_string_bytes(option_text(*v)));
}

/// Hashes a payload under a domain tag.
pub fn hash_with_domain(tag: &str, payload: &[u8]) -> (r: [u8; 32])
    ensures
        r@ == domain_hash(tag@, payload@),
{
    let mut buf: Vec<u8> = Vec::new();
    put_text(&mut buf, tag);
    put(&mut buf, payload);
    assert(buf@ =~= domain_bytes(tag@, payload@));
    sha256(buf.as_slice())
}

/// The concatenation of byte strings.
pub open spec fn flat(parts: Seq<Seq<u8>>) -> Seq<u8>
    decreases parts.len(),
{
    if parts.len() == 0 {
        Seq::empty()
    } else {
        flat(parts.drop_last()) + parts.last()
    }
}

/// The bytes of hashes in ascending order.
pub open spec fn sorted_bytes(hashes: Seq<Seq<u8>>) -> Seq<u8> {
    flat(stable_sorted(hashes, byte_ranking()))
}

/// Appends hashes in ascending order.
pub fn put_sorted(buf: &mut Vec<u8>, hashes: Vec<[u8; 32]>)
    ensures
        final(buf)@ == old(buf)@ + sorted_bytes(models(hashes@)),
{
    let ghost before = buf@;
    let sorted = sort_ranked(hashes);
    let ghost all = models(sorted@);
    let mut i: usize = 0;
    assert(all.take(0) =~= Seq::<Seq<u8>>::empty());
    assert(buf@ =~= before + flat(all.take(0)));
    while i < sorted.len()
        invariant
            i <= sorted@.len(),
            all == models(sorted@),
            buf@ == before + flat(all.take(i as int)),
        decreases sorted.len() - i,
    {
        proof {
            assert(all.take(i + 1).drop_last() =~= all.take(i as int));
            assert(all.take(i + 1).last() == sorted@[i as int]@);
        }
        put(buf, sorted[i].as_slice());
        assert(buf@ =~= before + flat(all.take(i + 1)));
        i += 1;
    }
    assert(all.take(i as int) =~= all);
}

/// Applying a function to two arrangements of the same items gives two
/// arrangements of the same results.
pub proof fn lemma_map_keeps_multiset<A, B>(s: Seq<A>, t: Seq<A>, f: spec_fn(A) -> B)
    requires
        s.to_multiset() == t.to_multiset(),
    ensures
        s.map_values(f).to_multiset() == t.map_values(f).to_multiset(),
    decreases s.len(),
{
    broadcast use vstd::seq_lib::group_to_multiset_ensures;

    assert(s.len() == s.to_multiset().len());
    assert(t.len() == t.to_multiset().len());
    if s.len() == 0 {
        assert(s.map_values(f) =~= t.map_values(f));
    } else {
        let x = s.last();
        assert(s.contains(x));
        assert(t.to_multiset().count(x) > 0);
        assert(t.contains(x));
        let i = choose|i: int| 0 <= i < t.len() && t[i] == x;
        let s0 = s.drop_last();
        let t0 = t.remove(i);
        assert(s =~= s0.push(x));
        assert(s0.to_multiset() =~= t0.to_multiset());
        lemma_map_keeps_multiset(s0, t0, f);
        assert(s.map_values(f) =~= s0.map_values(f).push(f(x)));
        assert(t.map_values(f).remove(i) =~= t0.map_values(f));
        assert(t.map_values(f)[i] == f(x));
        assert(t.map_values(f).to_multiset() =~= t0.map_values(f).to_multiset().insert(f(x)));
        assert(s.map_values(f).to_multiset() =~= t.map_values(f).to_multiset());
    }
}

/// The sorted bytes of hashes do not depend on the order of the hashed items.
pub proof fn lemma_sorted_bytes_forget_order<A>(s: Seq<A>, t: Seq<A>, hash: spec_fn(A) -> Seq<u8>)
    requires
        s.to_multiset() == t.to_multiset(),
    ensures
        sorted_bytes(s.map_values(hash)) == sorted_bytes(t.map_values(hash)),
{
    let a = s.map_values(hash);
    let b = t.map_values(hash);
    lemma_map_keeps_multiset(s, t, hash);
    assert forall|i: int, j: int|
        0 <= i < a.len() && 0 <= j < a.len() && byte_ranking()(#[trigger] a[i]) == byte_ranking()(
            #[trigger] a[j],
        ) implies a[i] == a[j] by {
        lemma_bytes_rank_injective(a[i], a[j]);
    }
    lemma_sorting_forgets_order(a, b, byte_ranking());
}

/// Different texts have different UTF-8 bytes.
pub proof fn lemma_utf8_injective(a: Seq<char>, b: Seq<char>)
    requires
        utf8(a) == utf8(b),
    ensures
        a == b,
{
    broadcast use vstd::utf8::encode_utf8_decode_utf8;

    assert(vstd::utf8::decode_utf8(encode_utf8(a)) == a);
    assert(vstd::utf8::decode_utf8(encode_utf8(b)) == b);
}

/// A number has eight bytes, and different numbers have different ones.
pub proof fn lemma_u64_bytes(a: u64, b: u64)
    ensures
        u64_bytes(a).len() == 8,
        u64_bytes(a) == u64_bytes(b) ==> a == b,
{
    lemma_auto_spec_u64_to_from_le_bytes();
    assert(spec_u64_from_le_bytes(spec_u64_to_le_bytes(a)) == a);
    assert(spec_u64_from_le_bytes(spec_u64_to_le_bytes(b)) == b);
}

/// Where two concatenations agree and their first parts have the same length,
/// both parts agree.
pub proof fn lemma_same_split(a: Seq<u8>, x: Seq<u8>, b: Seq<u8>, y: Seq<u8>)
    requires
        a + x == b + y,
        a.len() == b.len(),
    ensures
        a == b,
        x == y,
{
    assert(a =~= (a + x).take(a.len() as int));
    assert(b =~= (b + y).take(b.len() as int));
    assert(x =~= (a + x).skip(a.len() as int));
    assert(y =~= (b + y).skip(b.len() as int));
}

/// Concatenation from the left is concatenation from the right.
pub proof fn lemma_regrouped(
    front: Seq<u8>,
    a: Seq<u8>,
    b: Seq<u8>,
    c: Seq<u8>,
    d: Seq<u8>,
    e: Seq<u8>,
)
    ensures
        front + a + b + c + d + e == front + (a + (b + (c + (d + e)))),
{
    assert(front + a + b + c + d + e =~= front + (a + (b + (c + (d + e)))));
}

/// Concatenation is associative.
pub proof fn lemma_associative(a: Seq<u8>, b: Seq<u8>, c: Seq<u8>)
    ensures
        a + b + c == a + (b + c),
{
    assert(a + b + c =~= a + (b + c));
}

/// A text fits into a 64-bit length prefix.
pub open spec fn encodable(s: Seq<char>) -> bool {
    utf8(s).len() <= u64::MAX
}

/// Length-prefixed texts are self-delimiting: what follows them does not
/// change how they are read.
pub proof fn lemma_string_bytes_delimited(a: Seq<char>, x: Seq<u8>, b: Seq<char>, y: Seq<u8>)
    requires
        encodable(a),
        encodable(b),
        string_bytes(a) + x == string_bytes(b) + y,
    ensures
        a == b,
        x == y,
{
    let la = u64_bytes(utf8(a).len() as u64);
    let lb = u64_bytes(utf8(b).len() as u64);
    lemma_u64_bytes(utf8(a).len() as u64, utf8(b).len() as u64);
    lemma_u64_bytes(utf8(b).len() as u64, utf8(a).len() as u64);
    assert(string_bytes(a) + x =~= la + (utf8(a) + x));
    assert(string_bytes(b) + y =~= lb + (utf8(b) + y));
    lemma_same_split(la, utf8(a) + x, lb, utf8(b) + y);
    lemma_same_split(utf8(a), x, utf8(b), y);
    lemma_utf8_injective(a, b);
}

/// Numbers are self-delimiting.
pub proof fn lemma_u64_bytes_delimited(a: u64, x: Seq<u8>, b: u64, y: Seq<u8>)
    requires
        u64_bytes(a) + x == u64_bytes(b) + y,
    ensures
        a == b,
        x == y,
{
    lemma_u64_bytes(a, b);
    lemma_u64_bytes(b, a);
    lemma_same_split(u64_bytes(a), x, u64_bytes(b), y);
}

/// Different texts have different length-prefixed bytes.
pub proof fn lemma_string_bytes_injective(a: Seq<char>, b: Seq<char>)
    requires
        encodable(a),
        encodable(b),
        string_bytes(a) == string_bytes(b),
    ensures
        a == b,
{
    let none = Seq::<u8>::empty();
    assert(string_bytes(a) + none =~= string_bytes(b) + none);
    lemma_string_bytes_delimited(a, none, b, none);
}

/// An optional text fits into a 64-bit length prefix.
pub open spec fn option_encodable(v: Option<Seq<char>>) -> bool {
    match v {
        Some(s) => encodable(s),
        None => true,
    }
}

/// Flagged optional texts are self-delimiting.
pub proof fn lemma_option_string_bytes_delimited(
    a: Option<Seq<char>>,
    x: Seq<u8>,
    b: Option<Seq<char>>,
    y: Seq<u8>,
)
    requires
        option_encodable(a),
        option_encodable(b),
        option_string_bytes(a) + x == option_string_bytes(b) + y,
    ensures
        a == b,
        x == y,
{
    let ea = option_string_bytes(a) + x;
    let eb = option_string_bytes(b) + y;
    assert(ea[0] == option_string_bytes(a)[0]);
    assert(eb[0] == option_string_bytes(b)[0]);
    match (a, b) {
        (Some(s), Some(t)) => {
            assert(ea =~= seq![1u8] + (string_bytes(s) + x));
            assert(eb =~= seq![1u8] + (string_bytes(t) + y));
            lemma_same_split(seq![1u8], string_bytes(s) + x, seq![1u8], string_bytes(t) + y);
            lemma_string_bytes_delimited(s, x, t, y);
        },
        (None, None) => {
            lemma_same_split(seq![0u8], x, seq![0u8], y);
        },
        _ => {},
    }
}

/// Flagged optional numbers are self-delimiting.
pub proof fn lemma_option_u64_bytes_delimited(
    a: Option<u64>,
    x: Seq<u8>,
    b: Option<u64>,
    y: Seq<u8>,
)
    requires
        option_u64_bytes(a) + x == option_u64_bytes(b) + y,
    ensures
        a == b,
        x == y,
{
    let ea = option_u64_bytes(a) + x;
    let eb = option_u64_bytes(b) + y;
    assert(ea[0] == option_u64_bytes(a)[0]);
    assert(eb[0] == option_u64_bytes(b)[0]);
    match (a, b) {
        (Some(n), Some(m)) => {
            lemma_u64_bytes(n, m);
            lemma_u64_bytes(m, n);
            lemma_same_split(option_u64_bytes(a), x, option_u64_bytes(b), y);
            lemma_same_split(seq![1u8], u64_bytes(n), seq![1u8], u64_bytes(m));
        },
        (None, None) => {
            lemma_same_split(seq![0u8], x, seq![0u8], y);
        },
        _ => {},
    }
}

/// Where two concatenations agree and end alike, they begin alike.
pub proof fn lemma_same_end(a: Seq<u8>, b: Seq<u8>, end: Seq<u8>)
    requires
        a + end == b + end,
    ensures
        a == b,
{
    assert((a + end).len() == a.len() + end.len());
    assert((b + end).len() == b.len() + end.len());
    lemma_same_split(a, end, b, end);
}

/// Bytes are put one part behind the other.
pub proof fn lemma_parts_are_put_in_order(parts: Seq<Seq<u8>>, last: Seq<u8>)
    ensures
        flat(Seq::empty()) == Seq::<u8>::empty(),
        flat(parts.push(last)) == flat(parts) + last,
{
    assert(parts.push(last).drop_last() =~= parts);
}

} // verus!
