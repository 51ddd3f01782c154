//! Canonical order of record fields and symbol parts.
use crate::types::types::{SpecType, Type, fields_model, lemma_fields_model, strings_model};
use vstd::prelude::*;

verus! {

/// Lexicographic order of strings by their characters (the order of `str`).
pub open spec fn str_lt(a: Seq<char>, b: Seq<char>) -> bool
    decreases a.len(),
{
    if b.len() == 0 {
        false
    } else if a.len() == 0 {
        true
    } else if (a[0] as u32) < (b[0] as u32) {
        true
    } else if a[0] == b[0] {
        str_lt(a.drop_first(), b.drop_first())
    } else {
        false
    }
}

/// Inserts `x` after the last element whose key is not greater than its own.
pub open spec fn insert_by_key<V>(s: Seq<(Seq<char>, V)>, x: (Seq<char>, V)) -> Seq<
    (Seq<char>, V),
>
    decreases s.len(),
{
    if s.len() == 0 {
        seq![x]
    } else if str_lt(x.0, s.last().0) {
        insert_by_key(s.drop_last(), x).push(s.last())
    } else {
        s.push(x)
    }
}

/// Stable sort by key.
pub open spec fn sort_by_key<V>(s: Seq<(Seq<char>, V)>) -> Seq<(Seq<char>, V)>
    decreases s.len(),
{
    if s.len() == 0 {
        s
    } else {
        insert_by_key(sort_by_key(s.drop_last()), s.last())
    }
}

/// Inserts `x` after the last string not greater than it.
pub open spec fn insert_str(s: Seq<Seq<char>>, x: Seq<char>) -> Seq<Seq<char>>
    decreases s.len(),
{
    if s.len() == 0 {
        seq![x]
    } else if str_lt(x, s.last()) {
        insert_str(s.drop_last(), x).push(s.last())
    } else {
        s.push(x)
    }
}

/// Sorts strings.
pub open spec fn sort_strs(s: Seq<Seq<char>>) -> Seq<Seq<char>>
    decreases s.len(),
{
    if s.len() == 0 {
        s
    } else {
        insert_str(sort_strs(s.drop_last()), s.last())
    }
}

/// Fields in non-decreasing order of name.
pub open spec fn keys_sorted<V>(s: Seq<(Seq<char>, V)>) -> bool {
    forall|i: int, j: int| 0 <= i < j < s.len() ==> !str_lt(#[trigger] s[j].0, #[trigger] s[i].0)
}

/// Strings in non-decreasing order.
pub open spec fn strs_sorted(s: Seq<Seq<char>>) -> bool {
    forall|i: int, j: int| 0 <= i < j < s.len() ==> !str_lt(#[trigger] s[j], #[trigger] s[i])
}

/// Sorting leaves sorted fields as they are.
pub proof fn lemma_sort_by_key_sorted<V>(s: Seq<(Seq<char>, V)>)
    requires
        keys_sorted(s),
    ensures
        sort_by_key(s) == s,
    decreases s.len(),
{
    if s.len() > 0 {
        let init = s.drop_last();
        assert(keys_sorted(init)) by {
            assert forall|i: int, j: int| 0 <= i < j < init.len() implies !str_lt(
                #[trigger] init[j].0,
                #[trigger] init[i].0,
            ) by {
                assert(init[j] == s[j] && init[i] == s[i]);
            }
        }
        lemma_sort_by_key_sorted(init);
        if init.len() > 0 {
            assert(init.last() == s[s.len() - 2]);
            assert(!str_lt(s.last().0, init.last().0));
        }
        assert(init.push(s.last()) =~= s);
    }
}

/// Sorting leaves sorted strings as they are.
pub proof fn lemma_sort_strs_sorted(s: Seq<Seq<char>>)
    requires
        strs_sorted(s),
    ensures
        sort_strs(s) == s,
    decreases s.len(),
{
    if s.len() > 0 {
        let init = s.drop_last();
        assert(strs_sorted(init)) by {
            assert forall|i: int, j: int| 0 <= i < j < init.len() implies !str_lt(
                #[trigger] init[j],
                #[trigger] init[i],
            ) by {
                assert(init[j] == s[j] && init[i] == s[i]);
            }
        }
        lemma_sort_strs_sorted(init);
        if init.len() > 0 {
            assert(init.last() == s[s.len() - 2]);
        }
        assert(init.push(s.last()) =~= s);
    }
}

/// Insertion at the position that a scan from the end finds.
proof fn lemma_insert_by_key_at<V>(s: Seq<(Seq<char>, V)>, x: (Seq<char>, V), j: int)
    requires
        0 <= j <= s.len(),
        forall|k: int| j <= k < s.len() ==> str_lt(x.0, #[trigger] s[k].0),
        j == 0 || !str_lt(x.0, s[j - 1].0),
    ensures
        insert_by_key(s, x) == s.take(j) + seq![x] + s.skip(j),
    decreases s.len(),
{
    if s.len() == 0 {
        assert(s.take(j) + seq![x] + s.skip(j) =~= seq![x]);
    } else if str_lt(x.0, s.last().0) {
        let init = s.drop_last();
        if j == s.len() {
            assert(false);
        }
        assert forall|k: int| j <= k < init.len() implies str_lt(x.0, #[trigger] init[k].0) by {
            assert(init[k] == s[k]);
        }
        if j > 0 {
            assert(init[j - 1] == s[j - 1]);
        }
        lemma_insert_by_key_at(init, x, j);
        assert((init.take(j) + seq![x] + init.skip(j)).push(s.last()) =~= s.take(j) + seq![x]
            + s.skip(j));
    } else {
        if j < s.len() {
            assert(str_lt(x.0, s[s.len() - 1].0));
        }
        assert(s.push(x) =~= s.take(j) + seq![x] + s.skip(j));
    }
}

proof fn lemma_insert_str_at(s: Seq<Seq<char>>, x: Seq<char>, j: int)
    requires
        0 <= j <= s.len(),
        forall|k: int| j <= k < s.len() ==> str_lt(x, #[trigger] s[k]),
        j == 0 || !str_lt(x, s[j - 1]),
    ensures
        insert_str(s, x) == s.take(j) + seq![x] + s.skip(j),
    decreases s.len(),
{
    if s.len() == 0 {
        assert(s.take(j) + seq![x] + s.skip(j) =~= seq![x]);
    } else if str_lt(x, s.last()) {
        let init = s.drop_last();
        if j == s.len() {
            assert(false);
        }
        assert forall|k: int| j <= k < init.len() implies str_lt(x, #[trigger] init[k]) by {
            assert(init[k] == s[k]);
        }
        if j > 0 {
            assert(init[j - 1] == s[j - 1]);
        }
        lemma_insert_str_at(init, x, j);
        assert((init.take(j) + seq![x] + init.skip(j)).push(s.last()) =~= s.take(j) + seq![x]
            + s.skip(j));
    } else {
        if j < s.len() {
            assert(str_lt(x, s[s.len() - 1]));
        }
        assert(s.push(x) =~= s.take(j) + seq![x] + s.skip(j));
    }
}

proof fn lemma_str_lt_step(a: Seq<char>, b: Seq<char>, i: int)
    requires
        0 <= i < a.len(),
        i < b.len(),
        a.take(i) == b.take(i),
    ensures
        str_lt(a.skip(i), b.skip(i)) == if (a[i] as u32) < (b[i] as u32) {
            true
        } else if a[i] == b[i] {
            str_lt(a.skip(i + 1), b.skip(i + 1))
        } else {
            false
        },
{
    assert(a.skip(i).drop_first() =~= a.skip(i + 1));
    assert(b.skip(i).drop_first() =~= b.skip(i + 1));
}

/// Whether `a` comes before `b`.
pub fn str_less(a: &str, b: &str) -> (r: bool)
    ensures
        r == str_lt(a@, b@),
{
    let alen = a.unicode_len();
    let blen = b.unicode_len();
    let mut i: usize = 0;
    assert(a@.skip(0) =~= a@);
    assert(b@.skip(0) =~= b@);
    while i < alen && i < blen
        invariant
            alen == a@.len(),
            blen == b@.len(),
            0 <= i <= alen,
            i <= blen,
            a@.take(i as int) == b@.take(i as int),
            str_lt(a@, b@) == str_lt(a@.skip(i as int), b@.skip(i as int)),
        decreases alen - i,
    {
        let ca = a.get_char(i);
        let cb = b.get_char(i);
        proof {
            lemma_str_lt_step(a@, b@, i as int);
        }
        if (ca as u32) < (cb as u32) {
            return true;
        } else if ca != cb {
            return false;
        }
        assert(a@.take(i + 1) =~= a@.take(i as int).push(ca));
        assert(b@.take(i + 1) =~= b@.take(i as int).push(cb));
        i += 1;
    }
    i < blen
}

/// Sorts record fields by name; fields with the same name keep their order.
pub fn sort_fields(fields: Vec<(String, Type)>) -> (r: Vec<(String, Type)>)
    ensures
        fields_model(r@) == sort_by_key(fields_model(fields@)),
{
    let ghost model = fields_model(fields@);
    proof {
        lemma_fields_model(fields@);
    }
    let mut input = fields;
    let mut res: Vec<(String, Type)> = Vec::new();
    let ghost mut done: nat = 0;
    assert(model.take(0) =~= Seq::<(Seq<char>, SpecType)>::empty());
    while input.len() > 0
        invariant
            model.len() == done + input@.len(),
            fields_model(input@) == model.skip(done as int),
            fields_model(res@) == sort_by_key(model.take(done as int)),
        decreases input.len(),
    {
        proof {
            lemma_fields_model(input@);
            lemma_fields_model(res@);
        }
        let ghost old_input = input@;
        let x = input.remove(0);
        let ghost mx = (x.0@, x.1@);
        assert(mx == model[done as int]) by {
            assert(fields_model(old_input)[0] == model.skip(done as int)[0]);
        }
        assert(fields_model(input@) =~= model.skip(done + 1 as int)) by {
            lemma_fields_model(input@);
            lemma_fields_model(old_input);
            assert(input@ =~= old_input.drop_first());
            assert forall|k: int| 0 <= k < input@.len() implies #[trigger] fields_model(input@)[k]
                == model.skip(done + 1 as int)[k] by {
                assert(fields_model(old_input)[k + 1] == model.skip(done as int)[k + 1]);
            }
        }
        let mut j = res.len();
        while j > 0 && str_less(x.0.as_str(), res[j - 1].0.as_str())
            invariant
                0 <= j <= res.len(),
                forall|k: int| j <= k < res.len() ==> str_lt(x.0@, #[trigger] res@[k].0@),
            decreases j,
        {
            j -= 1;
        }
        let ghost before = fields_model(res@);
        proof {
            lemma_fields_model(res@);
            assert forall|k: int| j <= k < before.len() implies str_lt(mx.0, #[trigger] before[k].0) by {
                assert(before[k].0 == res@[k].0@);
            }
            if j > 0 {
                assert(before[j - 1].0 == res@[j - 1].0@);
            }
            lemma_insert_by_key_at(before, mx, j as int);
        }
        res.insert(j, x);
        proof {
            lemma_fields_model(res@);
            assert(fields_model(res@) =~= before.take(j as int) + seq![mx] + before.skip(j as int));
            assert(model.take(done + 1 as int).drop_last() =~= model.take(done as int));
            done = done + 1;
        }
    }
    assert(model.take(done as int) =~= model);
    res
}

/// Sorts strings.
pub fn sort_strings(parts: Vec<String>) -> (r: Vec<String>)
    ensures
        strings_model(r@) == sort_strs(strings_model(parts@)),
{
    let ghost model = strings_model(parts@);
    let mut input = parts;
    let mut res: Vec<String> = Vec::new();
    let ghost mut done: nat = 0;
    assert(model.take(0) =~= Seq::<Seq<char>>::empty());
    assert(strings_model(input@) =~= model.skip(0));
    while input.len() > 0
        invariant
            model.len() == done + input@.len(),
            strings_model(input@) == model.skip(done as int),
            strings_model(res@) == sort_strs(model.take(done as int)),
        decreases input.len(),
    {
        let ghost old_input = input@;
        let x = input.remove(0);
        assert(x@ == model[done as int]) by {
            assert(strings_model(old_input)[0] == model.skip(done as int)[0]);
        }
        assert(strings_model(input@) =~= model.skip(done + 1 as int)) by {
            assert(input@ =~= old_input.drop_first());
            assert forall|k: int| 0 <= k < input@.len() implies #[trigger] strings_model(input@)[k]
                == model.skip(done + 1 as int)[k] by {
                assert(strings_model(old_input)[k + 1] == model.skip(done as int)[k + 1]);
            }
        }
        let mut j = res.len();
        while j > 0 && str_less(x.as_str(), res[j - 1].as_str())
            invariant
                0 <= j <= res.len(),
                forall|k: int| j <= k < res.len() ==> str_lt(x@, #[trigger] res@[k]@),
            decreases j,
        {
            j -= 1;
        }
        let ghost before = strings_model(res@);
        proof {
            assert forall|k: int| j <= k < before.len() implies str_lt(x@, #[trigger] before[k]) by {
                assert(before[k] == res@[k]@);
            }
            if j > 0 {
                assert(before[j - 1] == res@[j - 1]@);
            }
            lemma_insert_str_at(before, x@, j as int);
        }
        res.insert(j, x);
        proof {
            assert(strings_model(res@) =~= before.take(j as int) + seq![x@] + before.skip(j as int));
            assert(model.take(done + 1 as int).drop_last() =~= model.take(done as int));
            done = done + 1;
        }
    }
    assert(model.take(done as int) =~= model);
    res
}

impl Type {
    /// A record type with the given fields, sorted by name.
    pub fn record(fields: Vec<(String, Type)>) -> (r: Type)
        ensures
            r@ == SpecType::Record(sort_by_key(fields_model(fields@))),
    {
        Type::Record(sort_fields(fields))
    }

    /// A symbol type with the given parts, sorted.
    pub fn symbol(parts: Vec<String>) -> (r: Type)
        ensures
            r@ == SpecType::Symbol(sort_strs(strings_model(parts@))),
    {
        Type::Symbol(sort_strings(parts))
    }
}

} // verus!
