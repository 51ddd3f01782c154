//! The compound values of the virtual machine: arrays, records and maps.
//!
//! A compound value lives in the machine's heap; on the stack it is a word
//! that holds its place in the heap. A map keeps its entries ordered by key,
//! entries with equal keys in the order they were given.
use crate::text::{decimal, push_char, push_decimal};
use vstd::prelude::*;

verus! {

/// A compound value in the heap.
#[derive(Debug, Clone, PartialEq, Eq)]
pub enum Object {
    Array(Vec<i64>),
    Record(Vec<i64>),
    /// Key and value pairs, ordered by key.
    Dict(Vec<(i64, i64)>),
}

/// A compound value, as values.
pub enum ObjectView {
    Array(Seq<i64>),
    Record(Seq<i64>),
    Dict(Seq<(i64, i64)>),
}

impl View for Object {
    type V = ObjectView;

    open spec fn view(&self) -> ObjectView {
        match self {
            Object::Array(v) => ObjectView::Array(v@),
            Object::Record(v) => ObjectView::Record(v@),
            Object::Dict(v) => ObjectView::Dict(v@),
        }
    }
}

/// `e` placed before the first entry of `s` with a larger key.
pub open spec fn insert_entry(s: Seq<(i64, i64)>, e: (i64, i64)) -> Seq<(i64, i64)>
    decreases s.len(),
{
    if s.len() == 0 {
        seq![e]
    } else if e.0 < s[0].0 {
        seq![e] + s
    } else {
        seq![s[0]] + insert_entry(s.drop_first(), e)
    }
}

/// The entries ordered by key, entries with equal keys kept in their order.
pub open spec fn sort_entries(s: Seq<(i64, i64)>) -> Seq<(i64, i64)>
    decreases s.len(),
{
    if s.len() == 0 {
        Seq::empty()
    } else {
        insert_entry(sort_entries(s.drop_last()), s.last())
    }
}

/// The words `k1, v1, ..., kn, vn` as the pairs `(k1, v1), ..., (kn, vn)`.
pub open spec fn pairs(words: Seq<i64>) -> Seq<(i64, i64)> {
    Seq::new(words.len() / 2, |i: int| (words[2 * i], words[2 * i + 1]))
}

/// The value of the first entry with key `k`.
pub open spec fn lookup_first(s: Seq<(i64, i64)>, k: i64) -> Option<i64>
    decreases s.len(),
{
    if s.len() == 0 {
        None
    } else if s[0].0 == k {
        Some(s[0].1)
    } else {
        lookup_first(s.drop_first(), k)
    }
}

/// An integer as decimal text, with a minus sign when negative.
pub open spec fn signed_decimal(x: int) -> Seq<char> {
    if x < 0 {
        seq!['-'] + decimal((-x) as nat)
    } else {
        decimal(x as nat)
    }
}

/// The first position of `s` whose key is larger than `k`, or its length.
spec fn insert_position(s: Seq<(i64, i64)>, k: i64, j: int) -> bool {
    &&& 0 <= j <= s.len()
    &&& forall|i: int| 0 <= i < j ==> !(k < #[trigger] s[i].0)
    &&& j < s.len() ==> k < s[j].0
}

proof fn lemma_insert_entry(s: Seq<(i64, i64)>, e: (i64, i64), j: int)
    requires
        insert_position(s, e.0, j),
    ensures
        insert_entry(s, e) == s.take(j) + seq![e] + s.skip(j),
    decreases s.len(),
{
    if s.len() == 0 {
        assert(s.take(j) + seq![e] + s.skip(j) =~= seq![e]);
    } else if e.0 < s[0].0 {
        assert(j == 0);
        assert(s.take(j) + seq![e] + s.skip(j) =~= seq![e] + s);
    } else {
        let t = s.drop_first();
        assert(insert_position(t, e.0, j - 1)) by {
            assert forall|i: int| 0 <= i < j - 1 implies !(e.0 < #[trigger] t[i].0) by {
                assert(t[i] == s[i + 1]);
            }
        }
        lemma_insert_entry(t, e, j - 1);
        assert(s.take(j) + seq![e] + s.skip(j) =~= seq![s[0]] + (t.take(j - 1) + seq![e] + t.skip(
            j - 1,
        )));
    }
}

/// The value found for a key is that of its first entry: an entry with the
/// key comes there, and none before it; no value is found exactly when no
/// entry has the key.
pub proof fn law_lookup_first(s: Seq<(i64, i64)>, k: i64)
    ensures
        lookup_first(s, k) is None <==> forall|i: int| 0 <= i < s.len() ==> #[trigger] s[i].0 != k,
        lookup_first(s, k) matches Some(x) ==> exists|i: int|
            0 <= i < s.len() && s[i] == (k, x) && forall|j: int| 0 <= j < i ==> #[trigger] s[j].0 != k,
    decreases s.len(),
{
    if s.len() > 0 {
        let t = s.drop_first();
        law_lookup_first(t, k);
        if s[0].0 == k {
            assert(s[0] == (k, s[0].1));
        } else {
            assert forall|i: int| 0 <= i < t.len() implies t[i] == s[i + 1] by {}
            if lookup_first(t, k) is None {
                assert forall|i: int| 0 <= i < s.len() implies #[trigger] s[i].0 != k by {
                    if i > 0 {
                        assert(s[i] == t[i - 1]);
                    }
                }
            } else {
                let x = lookup_first(t, k)->Some_0;
                let i = choose|i: int|
                    0 <= i < t.len() && t[i] == (k, x) && forall|j: int| 0 <= j < i ==> #[trigger] t[j].0 != k;
                assert(s[i + 1] == (k, x));
                assert forall|j: int| 0 <= j < i + 1 implies #[trigger] s[j].0 != k by {
                    if j > 0 {
                        assert(s[j] == t[j - 1]);
                    }
                }
                assert(exists|m: int| 0 <= m < t.len() && t[m].0 == k);
            }
        }
    }
}

/// Whether the keys of `s` never decrease.
pub open spec fn keys_ordered(s: Seq<(i64, i64)>) -> bool {
    forall|i: int, j: int| 0 <= i < j < s.len() ==> s[i].0 <= s[j].0
}

/// The entries with key `k`, in order.
pub open spec fn with_key(s: Seq<(i64, i64)>, k: i64) -> Seq<(i64, i64)> {
    s.filter(|e: (i64, i64)| e.0 == k)
}

/// No entry of `s` has key `k`: none is kept.
proof fn lemma_with_key_none(s: Seq<(i64, i64)>, k: i64)
    requires
        forall|i: int| 0 <= i < s.len() ==> #[trigger] s[i].0 != k,
    ensures
        with_key(s, k) == Seq::<(i64, i64)>::empty(),
    decreases s.len(),
{
    reveal(Seq::filter);
    if s.len() > 0 {
        lemma_with_key_none(s.drop_last(), k);
    }
}

/// Keeping the entries with key `k` of a concatenation, or of one entry.
proof fn lemma_with_key_parts(a: Seq<(i64, i64)>, b: Seq<(i64, i64)>, e: (i64, i64), k: i64)
    ensures
        with_key(a + b, k) == with_key(a, k) + with_key(b, k),
        with_key(seq![e], k) == if e.0 == k {
            seq![e]
        } else {
            Seq::<(i64, i64)>::empty()
        },
{
    Seq::filter_distributes_over_add(a, b, |x: (i64, i64)| x.0 == k);
    reveal(Seq::filter);
    let one = seq![e];
    let none = Seq::<(i64, i64)>::empty();
    assert(one.drop_last() =~= none);
    assert(with_key(none, k) == none);
    assert(one.last() == e);
    assert(with_key(one, k) == if e.0 == k {
        with_key(none, k).push(e)
    } else {
        with_key(none, k)
    });
    assert(none.push(e) =~= one);
}

/// Inserting keeps the keys in order, adds the entry to the multiset of
/// entries, and puts it after the entries with the same key.
proof fn lemma_insert_entry_facts(s: Seq<(i64, i64)>, e: (i64, i64))
    requires
        keys_ordered(s),
    ensures
        keys_ordered(insert_entry(s, e)),
        insert_entry(s, e).to_multiset() == s.to_multiset().insert(e),
        forall|k: i64| #[trigger] with_key(insert_entry(s, e), k) == if e.0 == k {
            with_key(s, k).push(e)
        } else {
            with_key(s, k)
        },
    decreases s.len(),
{
    broadcast use vstd::seq_lib::group_to_multiset_ensures;
    let r = insert_entry(s, e);
    if s.len() == 0 {
        assert(r == seq![e]);
        assert(seq![e] == Seq::<(i64, i64)>::empty().push(e));
        assert forall|k: i64| #[trigger] with_key(r, k) == if e.0 == k {
            with_key(s, k).push(e)
        } else {
            with_key(s, k)
        } by {
            lemma_with_key_parts(s, s, e, k);
            lemma_with_key_none(s, k);
        }
    } else if e.0 < s[0].0 {
        assert(r == seq![e] + s);
        assert forall|x: int, y: int| 0 <= x < y < r.len() implies r[x].0 <= r[y].0 by {
            if x == 0 {
                assert(r[y] == s[y - 1]);
                assert(s[0].0 <= s[y - 1].0);
            } else {
                assert(r[x] == s[x - 1] && r[y] == s[y - 1]);
            }
        }
        vstd::seq_lib::lemma_multiset_commutative(seq![e], s);
        assert(seq![e] == Seq::<(i64, i64)>::empty().push(e));
        assert forall|k: i64| #[trigger] with_key(r, k) == if e.0 == k {
            with_key(s, k).push(e)
        } else {
            with_key(s, k)
        } by {
            lemma_with_key_parts(seq![e], s, e, k);
            if e.0 == k {
                assert forall|i: int| 0 <= i < s.len() implies #[trigger] s[i].0 != k by {
                    assert(s[0].0 <= s[i].0);
                }
                lemma_with_key_none(s, k);
                assert(with_key(r, k) =~= seq![e]);
                assert(with_key(s, k).push(e) =~= seq![e]);
            } else {
                assert(with_key(r, k) =~= with_key(s, k));
            }
        }
    } else {
        let t = s.drop_first();
        assert(keys_ordered(t)) by {
            assert forall|x: int, y: int| 0 <= x < y < t.len() implies t[x].0 <= t[y].0 by {
                assert(t[x] == s[x + 1] && t[y] == s[y + 1]);
            }
        }
        lemma_insert_entry_facts(t, e);
        let rt = insert_entry(t, e);
        assert(r == seq![s[0]] + rt);
        assert(s == seq![s[0]] + t);
        // every entry of rt has a key no smaller than s[0]'s
        assert forall|y: int| 0 <= y < rt.len() implies s[0].0 <= #[trigger] rt[y].0 by {
            assert(rt.to_multiset().count(rt[y]) > 0);
            assert(t.to_multiset().insert(e).count(rt[y]) > 0);
            if rt[y] != e {
                assert(t.to_multiset().count(rt[y]) > 0);
                assert(t.contains(rt[y]));
                let i = choose|i: int| 0 <= i < t.len() && t[i] == rt[y];
                assert(s[i + 1] == t[i]);
            }
        }
        assert forall|x: int, y: int| 0 <= x < y < r.len() implies r[x].0 <= r[y].0 by {
            if x == 0 {
                assert(r[y] == rt[y - 1]);
            } else {
                assert(r[x] == rt[x - 1] && r[y] == rt[y - 1]);
            }
        }
        vstd::seq_lib::lemma_multiset_commutative(seq![s[0]], rt);
        vstd::seq_lib::lemma_multiset_commutative(seq![s[0]], t);
        assert(r.to_multiset() =~= s.to_multiset().insert(e));
        assert forall|k: i64| #[trigger] with_key(r, k) == if e.0 == k {
            with_key(s, k).push(e)
        } else {
            with_key(s, k)
        } by {
            lemma_with_key_parts(seq![s[0]], rt, s[0], k);
            lemma_with_key_parts(seq![s[0]], t, s[0], k);
            if e.0 == k {
                assert(with_key(r, k) =~= with_key(s, k).push(e));
            }
        }
    }
}

/// Ordering the entries keeps them in order of key, keeps every entry, and
/// keeps the entries of each key in the order they were given.
pub proof fn law_sort_entries(s: Seq<(i64, i64)>)
    ensures
        keys_ordered(sort_entries(s)),
        sort_entries(s).to_multiset() == s.to_multiset(),
        forall|k: i64| #[trigger] with_key(sort_entries(s), k) == with_key(s, k),
    decreases s.len(),
{
    broadcast use vstd::seq_lib::group_to_multiset_ensures;
    if s.len() > 0 {
        let init = s.drop_last();
        law_sort_entries(init);
        lemma_insert_entry_facts(sort_entries(init), s.last());
        assert(init.push(s.last()) =~= s);
        assert forall|k: i64| #[trigger] with_key(sort_entries(s), k) == with_key(s, k) by {
            lemma_with_key_parts(init, seq![s.last()], s.last(), k);
            assert(init + seq![s.last()] =~= s);
            if s.last().0 == k {
                assert(with_key(init, k) + seq![s.last()] =~= with_key(init, k).push(s.last()));
            } else {
                assert(with_key(init, k) + Seq::<(i64, i64)>::empty() =~= with_key(init, k));
            }
        }
    } else {
        assert(sort_entries(s) =~= s);
    }
}

/// Inserts `e` before the first entry with a larger key.
fn insert_entry_exec(v: &mut Vec<(i64, i64)>, e: (i64, i64))
    ensures
        final(v)@ == insert_entry(old(v)@, e),
{
    let n = v.len();
    let mut j: usize = 0;
    while j < n && !(e.0 < v[j].0)
        invariant
            j <= n,
            n == v.len(),
            forall|i: int| 0 <= i < j ==> !(e.0 < #[trigger] v@[i].0),
        decreases n - j,
    {
        j = j + 1;
    }
    proof {
        lemma_insert_entry(v@, e, j as int);
    }
    let ghost s = v@;
    v.insert(j, e);
    assert(v@ =~= s.take(j as int) + seq![e] + s.skip(j as int));
}

/// The map made of the words `k1, v1, ..., kn, vn`: its entries ordered by
/// key.
pub fn make_map(words: &[i64]) -> (o: Object)
    requires
        words@.len() % 2 == 0,
    ensures
        o@ == ObjectView::Dict(sort_entries(pairs(words@))),
{
    let n = words.len();
    let p = n / 2;
    let ghost all = pairs(words@);
    let mut v: Vec<(i64, i64)> = Vec::new();
    let mut i: usize = 0;
    while i < p
        invariant
            p == all.len(),
            2 * p == words@.len(),
            n == words@.len(),
            all == pairs(words@),
            i <= p,
            v@ == sort_entries(all.take(i as int)),
        decreases p - i,
    {
        assert(2 * i + 1 < words@.len());
        let e = (words[2 * i], words[2 * i + 1]);
        assert(all.take(i + 1).drop_last() =~= all.take(i as int));
        insert_entry_exec(&mut v, e);
        i = i + 1;
    }
    assert(all.take(p as int) =~= all);
    Object::Dict(v)
}

/// The value of the first entry with key `k`.
pub fn find_key(entries: &Vec<(i64, i64)>, k: i64) -> (r: Option<i64>)
    ensures
        r == lookup_first(entries@, k),
{
    let n = entries.len();
    let mut i: usize = 0;
    assert(entries@.skip(0) =~= entries@);
    while i < n
        invariant
            n == entries@.len(),
            i <= n,
            lookup_first(entries@.skip(i as int), k) == lookup_first(entries@, k),
        decreases n - i,
    {
        assert(entries@.skip(i as int).drop_first() =~= entries@.skip(i + 1));
        if entries[i].0 == k {
            return Some(entries[i].1);
        }
        i = i + 1;
    }
    None
}

/// The words of a slice, in a vector of their own.
pub fn words_of(s: &[i64]) -> (v: Vec<i64>)
    ensures
        v@ == s@,
{
    let mut v: Vec<i64> = Vec::new();
    let n = s.len();
    let mut i: usize = 0;
    while i < n
        invariant
            n == s@.len(),
            i <= n,
            v@ == s@.take(i as int),
        decreases n - i,
    {
        v.push(s[i]);
        i = i + 1;
        assert(v@ =~= s@.take(i as int));
    }
    assert(s@.take(n as int) =~= s@);
    v
}

/// An integer as decimal text, with a minus sign when negative.
pub fn signed_text(x: i64) -> (s: String)
    ensures
        s@ == signed_decimal(x as int),
{
    let mut s = String::new();
    if x < 0 {
        push_char(&mut s, '-');
        let m: i128 = 0i128 - (x as i128);
        push_decimal(&mut s, m as u64);
    } else {
        push_decimal(&mut s, x as u64);
    }
    s
}

} // verus!
