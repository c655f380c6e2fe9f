//! The order of texts that `Ord` gives `str` (by code point, a prefix
//! first), and sorted lists of distinct texts.
use vstd::prelude::*;
use crate::text::{copy_string, to_chars};

verus! {

broadcast use vstd::string::group_string_axioms;

/// `a` comes before `b`: at the first character where they differ, `a`
/// has the smaller code point, or `a` is a proper prefix of `b`.
pub open spec fn text_less(a: Seq<char>, b: Seq<char>) -> bool
    decreases a.len(),
{
    if a.len() == 0 {
        b.len() > 0
    } else if b.len() == 0 {
        false
    } else if a[0] < b[0] {
        true
    } else if a[0] > b[0] {
        false
    } else {
        text_less(a.drop_first(), b.drop_first())
    }
}

/// No text comes before itself.
pub proof fn lemma_text_less_irreflexive(a: Seq<char>)
    ensures
        !text_less(a, a),
    decreases a.len(),
{
    if a.len() > 0 {
        lemma_text_less_irreflexive(a.drop_first());
    }
}

/// The order of texts is transitive.
pub proof fn lemma_text_less_transitive(a: Seq<char>, b: Seq<char>, c: Seq<char>)
    requires
        text_less(a, b),
        text_less(b, c),
    ensures
        text_less(a, c),
    decreases a.len(),
{
    if a.len() > 0 && b.len() > 0 && c.len() > 0 && a[0] == b[0] && b[0] == c[0] {
        lemma_text_less_transitive(a.drop_first(), b.drop_first(), c.drop_first());
    }
}

/// Of two different texts, one comes before the other.
pub proof fn lemma_text_less_total(a: Seq<char>, b: Seq<char>)
    requires
        a != b,
    ensures
        text_less(a, b) || text_less(b, a),
    decreases a.len(),
{
    if a.len() > 0 && b.len() > 0 && a[0] == b[0] {
        assert(a.drop_first() != b.drop_first()) by {
            if a.drop_first() == b.drop_first() {
                assert(a =~= seq![a[0]] + a.drop_first());
                assert(b =~= seq![b[0]] + b.drop_first());
            }
        }
        lemma_text_less_total(a.drop_first(), b.drop_first());
    } else if a.len() == 0 && b.len() == 0 {
        assert(a =~= b);
    }
}

proof fn lemma_text_less_skip(a: Seq<char>, b: Seq<char>, i: int)
    requires
        0 <= i <= a.len(),
        i <= b.len(),
        a.take(i) == b.take(i),
    ensures
        text_less(a, b) == text_less(a.skip(i), b.skip(i)),
    decreases i,
{
    if i > 0 {
        assert(a[0] == a.take(i)[0]);
        assert(b[0] == b.take(i)[0]);
        assert(a.drop_first().take(i - 1) =~= a.take(i).drop_first());
        assert(b.drop_first().take(i - 1) =~= b.take(i).drop_first());
        lemma_text_less_skip(a.drop_first(), b.drop_first(), i - 1);
        assert(a.drop_first().skip(i - 1) =~= a.skip(i));
        assert(b.drop_first().skip(i - 1) =~= b.skip(i));
    } else {
        assert(a.skip(0) =~= a);
        assert(b.skip(0) =~= b);
    }
}

/// Whether `a` comes before `b` (`a < b` on `str`).
pub fn text_before(a: &str, b: &str) -> (r: bool)
    ensures
        r == text_less(a@, b@),
{
    let x = to_chars(a);
    let y = to_chars(b);
    let mut i: usize = 0;
    while i < x.len() && i < y.len() && x[i] == y[i]
        invariant
            i <= x.len(),
            i <= y.len(),
            x@ == a@,
            y@ == b@,
            a@.take(i as int) == b@.take(i as int),
        decreases x.len() - i,
    {
        assert(a@.take(i + 1) =~= a@.take(i as int).push(a@[i as int]));
        assert(b@.take(i + 1) =~= b@.take(i as int).push(b@[i as int]));
        i += 1;
    }
    proof {
        lemma_text_less_skip(a@, b@, i as int);
    }
    if i == x.len() {
        i < y.len()
    } else if i == y.len() {
        false
    } else {
        assert(a@.skip(i as int)[0] == x@[i as int]);
        assert(b@.skip(i as int)[0] == y@[i as int]);
        x[i] < y[i]
    }
}

/// The texts of a list of strings.
pub open spec fn string_texts(v: Seq<String>) -> Seq<Seq<char>> {
    Seq::new(v.len(), |i: int| v[i]@)
}

/// Each text comes before every later one (so none occurs twice).
pub open spec fn strictly_sorted(s: Seq<Seq<char>>) -> bool {
    forall|i: int, j: int| 0 <= i < j < s.len() ==> text_less(#[trigger] s[i], #[trigger] s[j])
}

/// Adds `x` to a strictly sorted list of texts, in its place, unless it is
/// already there.
pub fn insert_sorted_unique(v: &mut Vec<String>, x: String)
    requires
        strictly_sorted(string_texts(old(v)@)),
    ensures
        strictly_sorted(string_texts(final(v)@)),
        string_texts(final(v)@).to_set() == string_texts(old(v)@).to_set().insert(x@),
{
    let ghost before = string_texts(v@);
    let mut p: usize = 0;
    while p < v.len() && text_before(v[p].as_str(), x.as_str())
        invariant
            p <= v.len(),
            string_texts(v@) == before,
            strictly_sorted(before),
            forall|k: int| 0 <= k < p ==> text_less(#[trigger] before[k], x@),
        decreases v.len() - p,
    {
        p += 1;
    }
    if p < v.len() && crate::text::str_eq(v[p].as_str(), x.as_str()) {
        assert(before.to_set() =~= before.to_set().insert(x@)) by {
            assert(before[p as int] == x@);
        }
        return;
    }
    proof {
        if p < v.len() {
            lemma_text_less_total(x@, before[p as int]);
        }
    }
    v.insert(p, x);
    let ghost after = string_texts(v@);
    proof {
        assert forall|k: int| 0 <= k < after.len() implies #[trigger] after[k] == (if k < p {
            before[k]
        } else if k == p {
            x@
        } else {
            before[k - 1]
        }) by {}
        assert forall|i: int, j: int| 0 <= i < j < after.len() implies text_less(#[trigger] after[i], #[trigger] after[j]) by {
            if j < p {
                assert(after[i] == before[i] && after[j] == before[j]);
            } else if j == p {
                assert(after[i] == before[i]);
            } else if i == p {
                assert(after[j] == before[j - 1]);
                if j - 1 > p {
                    lemma_text_less_transitive(x@, before[p as int], before[j - 1]);
                }
            } else if i < p {
                assert(after[i] == before[i] && after[j] == before[j - 1]);
            } else {
                assert(after[i] == before[i - 1] && after[j] == before[j - 1]);
            }
        }
        assert(after.to_set() =~= before.to_set().insert(x@)) by {
            assert forall|t: Seq<char>| after.to_set().contains(t) implies before.to_set().insert(x@).contains(t) by {
                let k = choose|k: int| 0 <= k < after.len() && after[k] == t;
                if k < p {
                    assert(before[k] == t);
                } else if k > p {
                    assert(before[k - 1] == t);
                }
            }
            assert forall|t: Seq<char>| before.to_set().insert(x@).contains(t) implies after.to_set().contains(t) by {
                if t == x@ {
                    assert(after[p as int] == t);
                } else {
                    let k = choose|k: int| 0 <= k < before.len() && before[k] == t;
                    if k < p {
                        assert(after[k] == t);
                    } else {
                        assert(after[k + 1] == t);
                    }
                }
            }
        }
    }
}


/// The distinct texts of `items`, sorted.
pub fn sorted_unique(items: &Vec<String>) -> (r: Vec<String>)
    ensures
        strictly_sorted(string_texts(r@)),
        string_texts(r@).to_set() == string_texts(items@).to_set(),
{
    let mut out: Vec<String> = Vec::new();
    assert(string_texts(out@) =~= Seq::<Seq<char>>::empty());
    let mut i: usize = 0;
    while i < items.len()
        invariant
            i <= items.len(),
            strictly_sorted(string_texts(out@)),
            string_texts(out@).to_set() == string_texts(items@).take(i as int).to_set(),
        decreases items.len() - i,
    {
        insert_sorted_unique(&mut out, copy_string(items[i].as_str()));
        assert(string_texts(items@).take(i + 1) =~= string_texts(items@).take(i as int).push(items@[i as int]@));
        proof {
            string_texts(items@).take(i as int).lemma_push_to_set_commute(items@[i as int]@);
        }
        i += 1;
    }
    assert(string_texts(items@).take(items.len() as int) =~= string_texts(items@));
    out
}

/// `a` comes before `b` when their texts are compared in turn: at the first
/// place where they differ, `a` has the text that comes first.
pub open spec fn tuple_less(a: Seq<Seq<char>>, b: Seq<Seq<char>>) -> bool
    decreases a.len(),
{
    if a.len() == 0 || b.len() == 0 {
        false
    } else if text_less(a[0], b[0]) {
        true
    } else if a[0] == b[0] {
        tuple_less(a.drop_first(), b.drop_first())
    } else {
        false
    }
}

/// The order of text tuples is transitive.
pub proof fn lemma_tuple_less_transitive(a: Seq<Seq<char>>, b: Seq<Seq<char>>, c: Seq<Seq<char>>)
    requires
        tuple_less(a, b),
        tuple_less(b, c),
    ensures
        tuple_less(a, c),
    decreases a.len(),
{
    if text_less(a[0], b[0]) {
        if text_less(b[0], c[0]) {
            lemma_text_less_transitive(a[0], b[0], c[0]);
        }
    } else if text_less(b[0], c[0]) {
    } else {
        lemma_tuple_less_transitive(a.drop_first(), b.drop_first(), c.drop_first());
    }
}

/// No tuple comes before itself.
pub proof fn lemma_tuple_less_irreflexive(a: Seq<Seq<char>>)
    ensures
        !tuple_less(a, a),
    decreases a.len(),
{
    if a.len() > 0 {
        lemma_text_less_irreflexive(a[0]);
        lemma_tuple_less_irreflexive(a.drop_first());
    }
}

/// `order` lists every position of `keys` once, each key not before the
/// ones listed earlier.
pub open spec fn is_tuple_order(keys: Seq<Seq<Seq<char>>>, order: Seq<usize>) -> bool {
    &&& order.len() == keys.len()
    &&& forall|k: int| 0 <= k < order.len() ==> (#[trigger] order[k]) < keys.len()
    &&& forall|k1: int, k2: int| 0 <= k1 < k2 < order.len() ==> (#[trigger] order[k1]) != (#[trigger] order[k2])
    &&& forall|j: int| 0 <= j < keys.len() ==> #[trigger] order.contains(j as usize)
    &&& forall|k1: int, k2: int|
        0 <= k1 < k2 < order.len() ==> !tuple_less(keys[#[trigger] order[k2] as int], keys[#[trigger] order[k1] as int])
}

/// The texts of a list of string lists.
pub open spec fn tuple_texts(v: Seq<Vec<String>>) -> Seq<Seq<Seq<char>>> {
    Seq::new(v.len(), |i: int| string_texts(v[i]@))
}

/// Whether tuple `a` comes before tuple `b`.
pub fn tuple_before(a: &Vec<String>, b: &Vec<String>) -> (r: bool)
    ensures
        r == tuple_less(string_texts(a@), string_texts(b@)),
{
    let mut i: usize = 0;
    assert(string_texts(a@).skip(0) =~= string_texts(a@));
    assert(string_texts(b@).skip(0) =~= string_texts(b@));
    while i < a.len() && i < b.len()
        invariant
            i <= a.len(),
            i <= b.len(),
            tuple_less(string_texts(a@), string_texts(b@)) == tuple_less(string_texts(a@).skip(i as int), string_texts(b@).skip(i as int)),
        decreases a.len() - i,
    {
        let ghost x = string_texts(a@).skip(i as int);
        let ghost y = string_texts(b@).skip(i as int);
        assert(x[0] == a@[i as int]@);
        assert(y[0] == b@[i as int]@);
        if text_before(a[i].as_str(), b[i].as_str()) {
            return true;
        }
        if !crate::text::str_eq(a[i].as_str(), b[i].as_str()) {
            return false;
        }
        assert(x.drop_first() =~= string_texts(a@).skip(i + 1));
        assert(y.drop_first() =~= string_texts(b@).skip(i + 1));
        i += 1;
    }
    false
}

/// Two tuples in one order exclude the other order.
pub proof fn lemma_tuple_less_asymmetric(a: Seq<Seq<char>>, b: Seq<Seq<char>>)
    requires
        tuple_less(a, b),
    ensures
        !tuple_less(b, a),
{
    if tuple_less(b, a) {
        lemma_tuple_less_transitive(a, b, a);
        lemma_tuple_less_irreflexive(a);
    }
}

/// Of two different tuples of the same length, one comes before the other.
pub proof fn lemma_tuple_less_total(a: Seq<Seq<char>>, b: Seq<Seq<char>>)
    requires
        a.len() == b.len(),
        a != b,
    ensures
        tuple_less(a, b) || tuple_less(b, a),
    decreases a.len(),
{
    if a.len() == 0 {
        assert(a =~= b);
    } else if a[0] != b[0] {
        lemma_text_less_total(a[0], b[0]);
    } else {
        assert(a.drop_first() != b.drop_first()) by {
            if a.drop_first() == b.drop_first() {
                assert(a =~= seq![a[0]] + a.drop_first());
                assert(b =~= seq![b[0]] + b.drop_first());
            }
        }
        lemma_tuple_less_total(a.drop_first(), b.drop_first());
    }
}

/// All tuples have the same length.
pub open spec fn same_width(keys: Seq<Seq<Seq<char>>>) -> bool {
    forall|i: int, j: int| 0 <= i < keys.len() && 0 <= j < keys.len() ==> (#[trigger] keys[i]).len() == (#[trigger] keys[j]).len()
}

/// Not-before is transitive on tuples of one length.
proof fn lemma_not_less_transitive(x: Seq<Seq<char>>, y: Seq<Seq<char>>, z: Seq<Seq<char>>)
    requires
        x.len() == y.len(),
        y.len() == z.len(),
        !tuple_less(y, x),
        !tuple_less(z, y),
    ensures
        !tuple_less(z, x),
{
    if tuple_less(z, x) {
        if x == y {
        } else if y == z {
        } else {
            lemma_tuple_less_total(x, y);
            lemma_tuple_less_total(y, z);
            lemma_tuple_less_transitive(x, y, z);
            lemma_tuple_less_transitive(z, x, y);
            lemma_tuple_less_irreflexive(z);
            lemma_tuple_less_transitive(z, x, z);
        }
    }
}

/// `s` lists each position from `lo` to `hi` once, by nondecreasing key.
pub open spec fn is_sorted_run(keys: Seq<Seq<Seq<char>>>, s: Seq<usize>, lo: int, hi: int) -> bool {
    &&& s.len() == hi - lo
    &&& forall|k: int| 0 <= k < s.len() ==> lo <= #[trigger] s[k] < hi
    &&& forall|k1: int, k2: int| 0 <= k1 < k2 < s.len() ==> (#[trigger] s[k1]) != (#[trigger] s[k2])
    &&& forall|j: int| lo <= j < hi ==> #[trigger] s.contains(j as usize)
    &&& forall|k1: int, k2: int| 0 <= k1 < k2 < s.len() ==> !tuple_less(keys[#[trigger] s[k2] as int], keys[#[trigger] s[k1] as int])
}

fn merge_runs(
    keys: &Vec<Vec<String>>,
    a: &Vec<usize>,
    b: &Vec<usize>,
    Ghost(lo): Ghost<int>,
    Ghost(mid): Ghost<int>,
    Ghost(hi): Ghost<int>,
) -> (c: Vec<usize>)
    requires
        0 <= lo <= mid <= hi <= keys.len(),
        same_width(tuple_texts(keys@)),
        is_sorted_run(tuple_texts(keys@), a@, lo, mid),
        is_sorted_run(tuple_texts(keys@), b@, mid, hi),
    ensures
        is_sorted_run(tuple_texts(keys@), c@, lo, hi),
{
    let ghost ks = tuple_texts(keys@);
    let mut c: Vec<usize> = Vec::new();
    let mut i: usize = 0;
    let mut j: usize = 0;
    while i < a.len() || j < b.len()
        invariant
            ks == tuple_texts(keys@),
            0 <= lo <= mid <= hi <= keys.len(),
            same_width(ks),
            is_sorted_run(ks, a@, lo, mid),
            is_sorted_run(ks, b@, mid, hi),
            i <= a.len(),
            j <= b.len(),
            c.len() == i + j,
            forall|k: int| 0 <= k < c.len() ==> lo <= #[trigger] c@[k] < hi,
            forall|k1: int, k2: int| 0 <= k1 < k2 < c.len() ==> (#[trigger] c@[k1]) != (#[trigger] c@[k2]),
            forall|k: int| 0 <= k < c.len() ==> (#[trigger] c@[k]) < mid ==> exists|x: int| 0 <= x < i && a@[x] == c@[k],
            forall|k: int| 0 <= k < c.len() ==> (#[trigger] c@[k]) >= mid ==> exists|y: int| 0 <= y < j && b@[y] == c@[k],
            forall|x: int| 0 <= x < i ==> c@.contains(#[trigger] a@[x]),
            forall|y: int| 0 <= y < j ==> c@.contains(#[trigger] b@[y]),
            forall|k1: int, k2: int| 0 <= k1 < k2 < c.len() ==> !tuple_less(ks[#[trigger] c@[k2] as int], ks[#[trigger] c@[k1] as int]),
            forall|k: int, x: int| 0 <= k < c.len() && i <= x < a.len() ==> !tuple_less(ks[#[trigger] a@[x] as int], ks[#[trigger] c@[k] as int]),
            forall|k: int, y: int| 0 <= k < c.len() && j <= y < b.len() ==> !tuple_less(ks[#[trigger] b@[y] as int], ks[#[trigger] c@[k] as int]),
        decreases a.len() + b.len() - i - j,
    {
        let take_a = if j >= b.len() {
            true
        } else if i >= a.len() {
            false
        } else {
            !tuple_before(&keys[b[j]], &keys[a[i]])
        };
        let ghost before = c@;
        if take_a {
            let v = a[i];
            proof {
                assert(string_texts(keys@[v as int]@) == ks[v as int]);
                if j < b.len() {
                    assert(string_texts(keys@[b@[j as int] as int]@) == ks[b@[j as int] as int]);
                    assert(!tuple_less(ks[b@[j as int] as int], ks[v as int]));
                }
            }
            c.push(v);
            proof {
                assert forall|k1: int, k2: int| 0 <= k1 < k2 < c.len() implies (#[trigger] c@[k1]) != (#[trigger] c@[k2]) by {
                    if k2 == c.len() - 1 {
                        assert(c@[k1] == before[k1]);
                        if before[k1] < mid {
                            let x = choose|x: int| 0 <= x < i && a@[x] == before[k1];
                            assert(a@[x] != a@[i as int]);
                        }
                    } else {
                        assert(c@[k1] == before[k1] && c@[k2] == before[k2]);
                    }
                }
                assert forall|k: int| 0 <= k < c.len() implies lo <= #[trigger] c@[k] < hi by {
                    if k < before.len() { assert(c@[k] == before[k]); }
                }
                assert forall|k: int| 0 <= k < c.len() && (#[trigger] c@[k]) < mid implies exists|x: int| 0 <= x < i + 1 && a@[x] == c@[k] by {
                    if k < before.len() {
                        assert(c@[k] == before[k]);
                        let x = choose|x: int| 0 <= x < i && a@[x] == before[k];
                    } else {
                        assert(a@[i as int] == c@[k]);
                    }
                }
                assert forall|k: int| 0 <= k < c.len() && (#[trigger] c@[k]) >= mid implies exists|y: int| 0 <= y < j && b@[y] == c@[k] by {
                    if k < before.len() {
                        assert(c@[k] == before[k]);
                    }
                }
                assert forall|x: int| 0 <= x < i + 1 implies c@.contains(#[trigger] a@[x]) by {
                    if x < i {
                        let w = choose|w: int| 0 <= w < before.len() && before[w] == a@[x];
                        assert(c@[w] == before[w]);
                    } else {
                        assert(c@[c.len() - 1] == a@[x]);
                    }
                }
                assert forall|y: int| 0 <= y < j implies c@.contains(#[trigger] b@[y]) by {
                    let w = choose|w: int| 0 <= w < before.len() && before[w] == b@[y];
                    assert(c@[w] == before[w]);
                }
                assert forall|k1: int, k2: int| 0 <= k1 < k2 < c.len() implies !tuple_less(ks[#[trigger] c@[k2] as int], ks[#[trigger] c@[k1] as int]) by {
                    assert(c@[k1] == before[k1]);
                    if k2 < before.len() {
                        assert(c@[k2] == before[k2]);
                    }
                }
                assert forall|k: int, x: int| 0 <= k < c.len() && i + 1 <= x < a.len() implies !tuple_less(ks[#[trigger] a@[x] as int], ks[#[trigger] c@[k] as int]) by {
                    if k < before.len() {
                        assert(c@[k] == before[k]);
                    }
                }
                assert forall|k: int, y: int| 0 <= k < c.len() && j <= y < b.len() implies !tuple_less(ks[#[trigger] b@[y] as int], ks[#[trigger] c@[k] as int]) by {
                    if k < before.len() {
                        assert(c@[k] == before[k]);
                    } else {
                        if y > j {
                            lemma_not_less_transitive(ks[v as int], ks[b@[j as int] as int], ks[b@[y] as int]);
                        }
                    }
                }
            }
            i += 1;
        } else {
            let v = b[j];
            proof {
                assert(string_texts(keys@[v as int]@) == ks[v as int]);
                if i < a.len() {
                    assert(string_texts(keys@[a@[i as int] as int]@) == ks[a@[i as int] as int]);
                    assert(tuple_less(ks[v as int], ks[a@[i as int] as int]));
                    lemma_tuple_less_asymmetric(ks[v as int], ks[a@[i as int] as int]);
                }
            }
            c.push(v);
            proof {
                assert forall|k1: int, k2: int| 0 <= k1 < k2 < c.len() implies (#[trigger] c@[k1]) != (#[trigger] c@[k2]) by {
                    if k2 == c.len() - 1 {
                        assert(c@[k1] == before[k1]);
                        if before[k1] >= mid {
                            let y = choose|y: int| 0 <= y < j && b@[y] == before[k1];
                            assert(b@[y] != b@[j as int]);
                        }
                    } else {
                        assert(c@[k1] == before[k1] && c@[k2] == before[k2]);
                    }
                }
                assert forall|k: int| 0 <= k < c.len() implies lo <= #[trigger] c@[k] < hi by {
                    if k < before.len() { assert(c@[k] == before[k]); }
                }
                assert forall|k: int| 0 <= k < c.len() && (#[trigger] c@[k]) < mid implies exists|x: int| 0 <= x < i && a@[x] == c@[k] by {
                    if k < before.len() {
                        assert(c@[k] == before[k]);
                    }
                }
                assert forall|k: int| 0 <= k < c.len() && (#[trigger] c@[k]) >= mid implies exists|y: int| 0 <= y < j + 1 && b@[y] == c@[k] by {
                    if k < before.len() {
                        assert(c@[k] == before[k]);
                        let y = choose|y: int| 0 <= y < j && b@[y] == before[k];
                    } else {
                        assert(b@[j as int] == c@[k]);
                    }
                }
                assert forall|x: int| 0 <= x < i implies c@.contains(#[trigger] a@[x]) by {
                    let w = choose|w: int| 0 <= w < before.len() && before[w] == a@[x];
                    assert(c@[w] == before[w]);
                }
                assert forall|y: int| 0 <= y < j + 1 implies c@.contains(#[trigger] b@[y]) by {
                    if y < j {
                        let w = choose|w: int| 0 <= w < before.len() && before[w] == b@[y];
                        assert(c@[w] == before[w]);
                    } else {
                        assert(c@[c.len() - 1] == b@[y]);
                    }
                }
                assert forall|k1: int, k2: int| 0 <= k1 < k2 < c.len() implies !tuple_less(ks[#[trigger] c@[k2] as int], ks[#[trigger] c@[k1] as int]) by {
                    assert(c@[k1] == before[k1]);
                    if k2 < before.len() {
                        assert(c@[k2] == before[k2]);
                    }
                }
                assert forall|k: int, x: int| 0 <= k < c.len() && i <= x < a.len() implies !tuple_less(ks[#[trigger] a@[x] as int], ks[#[trigger] c@[k] as int]) by {
                    if k < before.len() {
                        assert(c@[k] == before[k]);
                    } else {
                        if x > i {
                            lemma_not_less_transitive(ks[v as int], ks[a@[i as int] as int], ks[a@[x] as int]);
                        }
                    }
                }
                assert forall|k: int, y: int| 0 <= k < c.len() && j + 1 <= y < b.len() implies !tuple_less(ks[#[trigger] b@[y] as int], ks[#[trigger] c@[k] as int]) by {
                    if k < before.len() {
                        assert(c@[k] == before[k]);
                    }
                }
            }
            j += 1;
        }
    }
    proof {
        assert forall|x: int| lo <= x < hi implies #[trigger] c@.contains(x as usize) by {
            if x < mid {
                assert(a@.contains(x as usize));
                let w = choose|w: int| 0 <= w < a.len() && a@[w] == x as usize;
                assert(c@.contains(a@[w]));
            } else {
                assert(b@.contains(x as usize));
                let w = choose|w: int| 0 <= w < b.len() && b@[w] == x as usize;
                assert(c@.contains(b@[w]));
            }
        }
    }
    c
}

fn sort_run(keys: &Vec<Vec<String>>, lo: usize, hi: usize) -> (r: Vec<usize>)
    requires
        lo <= hi <= keys.len(),
        same_width(tuple_texts(keys@)),
    ensures
        is_sorted_run(tuple_texts(keys@), r@, lo as int, hi as int),
    decreases hi - lo,
{
    if hi - lo == 0 {
        let r: Vec<usize> = Vec::new();
        r
    } else if hi - lo == 1 {
        let mut r: Vec<usize> = Vec::new();
        r.push(lo);
        assert(r@[0] == lo);
        r
    } else {
        let mid = lo + (hi - lo) / 2;
        let a = sort_run(keys, lo, mid);
        let b = sort_run(keys, mid, hi);
        merge_runs(keys, &a, &b, Ghost(lo as int), Ghost(mid as int), Ghost(hi as int))
    }
}

/// The positions of `keys`, tuples of one length, in order (see `is_tuple_order`).
pub fn tuple_order(keys: &Vec<Vec<String>>) -> (order: Vec<usize>)
    requires
        same_width(tuple_texts(keys@)),
    ensures
        is_tuple_order(tuple_texts(keys@), order@),
{
    sort_run(keys, 0, keys.len())
}

} // verus!
