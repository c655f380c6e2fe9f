//! Canonical JSON for parameter digests: integers, strings, booleans and
//! null as they are, arrays in order, object members in key order, and no
//! floating-point numbers.
use vstd::prelude::*;
use crate::authz_envelope::{hex_lower, lower_hex, sha256, sha256_digest, str_bytes};
use crate::json_text::{json_chars, json_text};
use crate::error::AgentBrokerError;
use crate::json::{json_entries, json_view, JsonValue, JsonView};
use crate::text::{concat, from_chars, to_chars};

verus! {

broadcast use vstd::string::group_string_axioms;

/// Lexicographic order of texts by character code (the order of `String`).
pub open spec fn key_lt(a: Seq<char>, b: Seq<char>) -> bool
    decreases a.len(),
{
    if a.len() == 0 {
        b.len() > 0
    } else if b.len() == 0 {
        false
    } else if a[0] != b[0] {
        (a[0] as u32) < (b[0] as u32)
    } else {
        key_lt(a.drop_first(), b.drop_first())
    }
}

/// The position at which a member with key `k` goes in key-ordered members:
/// after every member whose key is not greater.
pub open spec fn insert_position(s: Seq<(Seq<char>, JsonView)>, k: Seq<char>) -> int
    decreases s.len(),
{
    if s.len() == 0 {
        0
    } else if key_lt(k, s[0].0) {
        0
    } else {
        1 + insert_position(s.drop_first(), k)
    }
}

/// Members put in key order, equal keys in their original order.
pub open spec fn sort_entries(es: Seq<(Seq<char>, JsonView)>) -> Seq<(Seq<char>, JsonView)>
    decreases es.len(),
{
    if es.len() == 0 {
        es
    } else {
        let sorted = sort_entries(es.drop_last());
        sorted.insert(insert_position(sorted, es.last().0), es.last())
    }
}

/// The canonical form of a JSON value, or `None` when it holds a
/// floating-point number.
pub open spec fn canon(v: JsonValue) -> Option<JsonView>
    decreases v, 0nat,
{
    match v {
        JsonValue::Float(_) => None,
        JsonValue::Array(items) => match canon_items(items, items.len() as nat) {
            Some(xs) => Some(JsonView::Array(xs)),
            None => None,
        },
        JsonValue::Object(entries) => match canon_entries(entries, entries.len() as nat) {
            Some(es) => Some(JsonView::Object(sort_entries(es))),
            None => None,
        },
        _ => Some(json_view(v)),
    }
}

/// The canonical forms of the first `n` items.
pub open spec fn canon_items(items: Vec<JsonValue>, n: nat) -> Option<Seq<JsonView>>
    decreases items, n,
{
    if n == 0 || n > items.len() {
        if n == 0 { Some(Seq::empty()) } else { None }
    } else {
        match canon_items(items, (n - 1) as nat) {
            None => None,
            Some(xs) => match canon(items[n - 1]) {
                None => None,
                Some(x) => Some(xs.push(x)),
            },
        }
    }
}

/// The first `n` members with canonical values, in their original order.
pub open spec fn canon_entries(entries: Vec<(String, JsonValue)>, n: nat) -> Option<Seq<(Seq<char>, JsonView)>>
    decreases entries, n,
{
    if n == 0 || n > entries.len() {
        if n == 0 { Some(Seq::empty()) } else { None }
    } else {
        match canon_entries(entries, (n - 1) as nat) {
            None => None,
            Some(es) => match canon(entries[n - 1].1) {
                None => None,
                Some(x) => Some(es.push((entries[n - 1].0@, x))),
            },
        }
    }
}

proof fn lemma_canon_items_stays_none(items: Vec<JsonValue>, k: nat, n: nat)
    requires
        k <= n <= items.len(),
        canon_items(items, k) is None,
    ensures
        canon_items(items, n) is None,
    decreases n - k,
{
    if k < n {
        lemma_canon_items_stays_none(items, k, (n - 1) as nat);
    }
}

proof fn lemma_canon_entries_stays_none(entries: Vec<(String, JsonValue)>, k: nat, n: nat)
    requires
        k <= n <= entries.len(),
        canon_entries(entries, k) is None,
    ensures
        canon_entries(entries, n) is None,
    decreases n - k,
{
    if k < n {
        lemma_canon_entries_stays_none(entries, k, (n - 1) as nat);
    }
}

proof fn lemma_key_lt_asymmetric(a: Seq<char>, b: Seq<char>)
    ensures
        key_lt(a, b) ==> !key_lt(b, a),
    decreases a.len(),
{
    if a.len() > 0 && b.len() > 0 && a[0] == b[0] {
        lemma_key_lt_asymmetric(a.drop_first(), b.drop_first());
    }
}

proof fn lemma_key_lt_transitive(a: Seq<char>, b: Seq<char>, c: Seq<char>)
    ensures
        key_lt(a, b) && key_lt(b, c) ==> key_lt(a, c),
    decreases a.len(),
{
    if a.len() > 0 && b.len() > 0 && c.len() > 0 && a[0] == b[0] && b[0] == c[0] {
        lemma_key_lt_transitive(a.drop_first(), b.drop_first(), c.drop_first());
    }
}

/// Members are in key order.
pub open spec fn keys_sorted(s: Seq<(Seq<char>, JsonView)>) -> bool {
    forall|i: int, j: int| 0 <= i < j < s.len() ==> !key_lt((#[trigger] s[j]).0, (#[trigger] s[i]).0)
}

proof fn lemma_insert_position(s: Seq<(Seq<char>, JsonView)>, k: Seq<char>)
    ensures
        0 <= insert_position(s, k) <= s.len(),
        forall|i: int| 0 <= i < insert_position(s, k) ==> !key_lt(k, #[trigger] s[i].0),
        insert_position(s, k) < s.len() ==> key_lt(k, s[insert_position(s, k)].0),
    decreases s.len(),
{
    if s.len() > 0 && !key_lt(k, s[0].0) {
        lemma_insert_position(s.drop_first(), k);
        assert forall|i: int| 0 <= i < insert_position(s, k) implies !key_lt(k, #[trigger] s[i].0) by {
            if i > 0 {
                assert(s[i] == s.drop_first()[i - 1]);
            }
        }
    }
}

/// Putting members in key order keeps exactly the same members and orders
/// them by key.
pub proof fn law_sorted_members_are_ordered_and_kept(es: Seq<(Seq<char>, JsonView)>)
    ensures
        keys_sorted(sort_entries(es)),
        sort_entries(es).to_multiset() == es.to_multiset(),
    decreases es.len(),
{
    broadcast use vstd::seq_lib::group_to_multiset_ensures;
    if es.len() > 0 {
        let rest = es.drop_last();
        law_sorted_members_are_ordered_and_kept(rest);
        let sorted = sort_entries(rest);
        let x = es.last();
        let p = insert_position(sorted, x.0);
        lemma_insert_position(sorted, x.0);
        let out = sorted.insert(p, x);
        assert forall|i: int, j: int| 0 <= i < j < out.len() implies !key_lt((#[trigger] out[j]).0, (#[trigger] out[i]).0) by {
            if j < p {
                assert(out[i] == sorted[i] && out[j] == sorted[j]);
            } else if j == p {
                assert(out[i] == sorted[i]);
            } else if i == p {
                assert(out[j] == sorted[j - 1]);
                lemma_key_lt_asymmetric(x.0, sorted[p].0);
                if key_lt(sorted[j - 1].0, x.0) {
                    lemma_key_lt_transitive(sorted[j - 1].0, x.0, sorted[p].0);
                }
            } else if i < p {
                assert(out[i] == sorted[i] && out[j] == sorted[j - 1]);
            } else {
                assert(out[i] == sorted[i - 1] && out[j] == sorted[j - 1]);
            }
        }
        vstd::seq_lib::to_multiset_insert(sorted, p, x);
        assert(es =~= rest.push(x));
        vstd::seq_lib::to_multiset_build(rest, x);
    }
}

proof fn lemma_key_lt_total(a: Seq<char>, b: Seq<char>)
    ensures
        !key_lt(a, b) && !key_lt(b, a) ==> a == b,
    decreases a.len(),
{
    if a.len() == 0 && b.len() == 0 {
        assert(a =~= b);
    } else if a.len() > 0 && b.len() > 0 {
        if a[0] == b[0] {
            lemma_key_lt_total(a.drop_first(), b.drop_first());
            if a.drop_first() == b.drop_first() {
                assert(a =~= seq![a[0]] + a.drop_first());
                assert(b =~= seq![b[0]] + b.drop_first());
            }
        } else {
            if (a[0] as u32) == (b[0] as u32) {
                vstd::utf8::char_u32_cast(a[0], a[0] as u32);
                vstd::utf8::char_u32_cast(b[0], b[0] as u32);
            }
        }
    }
}

proof fn lemma_key_lt_irreflexive(a: Seq<char>)
    ensures
        !key_lt(a, a),
    decreases a.len(),
{
    if a.len() > 0 {
        lemma_key_lt_irreflexive(a.drop_first());
    }
}

/// No two members share a key.
pub open spec fn keys_distinct(s: Seq<(Seq<char>, JsonView)>) -> bool {
    forall|i: int, j: int| 0 <= i < j < s.len() ==> (#[trigger] s[i]).0 != (#[trigger] s[j]).0
}

proof fn lemma_sorting_keeps_distinct_keys(es: Seq<(Seq<char>, JsonView)>)
    requires
        keys_distinct(es),
    ensures
        keys_distinct(sort_entries(es)),
    decreases es.len(),
{
    broadcast use vstd::seq_lib::group_to_multiset_ensures;
    if es.len() > 0 {
        let rest = es.drop_last();
        assert(keys_distinct(rest)) by {
            assert forall|i: int, j: int| 0 <= i < j < rest.len() implies (#[trigger] rest[i]).0 != (#[trigger] rest[j]).0 by {
                assert(rest[i] == es[i] && rest[j] == es[j]);
            }
        }
        lemma_sorting_keeps_distinct_keys(rest);
        law_sorted_members_are_ordered_and_kept(rest);
        let sorted = sort_entries(rest);
        let x = es.last();
        let p = insert_position(sorted, x.0);
        lemma_insert_position(sorted, x.0);
        let out = sorted.insert(p, x);
        assert forall|k: int| 0 <= k < sorted.len() implies (#[trigger] sorted[k]).0 != x.0 by {
            assert(sorted.to_multiset().count(sorted[k]) > 0);
            assert(rest.to_multiset().count(sorted[k]) > 0);
            assert(rest.contains(sorted[k]));
            let m = choose|m: int| 0 <= m < rest.len() && rest[m] == sorted[k];
            assert(es[m] == rest[m]);
            assert(es[es.len() - 1] == x);
        }
        assert forall|i: int, j: int| 0 <= i < j < out.len() implies (#[trigger] out[i]).0 != (#[trigger] out[j]).0 by {
            if j < p {
                assert(out[i] == sorted[i] && out[j] == sorted[j]);
            } else if j == p {
                assert(out[i] == sorted[i]);
            } else if i == p {
                assert(out[j] == sorted[j - 1]);
            } else if i < p {
                assert(out[i] == sorted[i] && out[j] == sorted[j - 1]);
            } else {
                assert(out[i] == sorted[i - 1] && out[j] == sorted[j - 1]);
            }
        }
    }
}

proof fn lemma_sorted_members_unique(s: Seq<(Seq<char>, JsonView)>, t: Seq<(Seq<char>, JsonView)>)
    requires
        keys_sorted(s),
        keys_sorted(t),
        keys_distinct(s),
        keys_distinct(t),
        forall|e: (Seq<char>, JsonView)| s.contains(e) <==> t.contains(e),
    ensures
        s == t,
    decreases s.len() + t.len(),
{
    if s.len() == 0 {
        if t.len() > 0 {
            assert(t.contains(t[0]));
        }
        assert(s =~= t);
    } else if t.len() == 0 {
        assert(s.contains(s[0]));
    } else {
        let a = s.last();
        let b = t.last();
        assert(s.contains(a));
        assert(t.contains(b));
        let j = choose|j: int| 0 <= j < t.len() && t[j] == a;
        let i = choose|i: int| 0 <= i < s.len() && s[i] == b;
        lemma_key_lt_total(a.0, b.0);
        if j < t.len() - 1 {
            assert(!key_lt(t[t.len() - 1].0, t[j].0));
        }
        if i < s.len() - 1 {
            assert(!key_lt(s[s.len() - 1].0, s[i].0));
        }
        lemma_key_lt_irreflexive(a.0);
        assert(a.0 == b.0) by {
            if j < t.len() - 1 && i < s.len() - 1 {
                lemma_key_lt_asymmetric(a.0, b.0);
            }
        }
        assert(j == t.len() - 1) by {
            if j < t.len() - 1 {
                assert(t[j].0 != t[t.len() - 1].0);
            }
        }
        let s1 = s.drop_last();
        let t1 = t.drop_last();
        assert forall|e: (Seq<char>, JsonView)| s1.contains(e) <==> t1.contains(e) by {
            if s1.contains(e) {
                let k = choose|k: int| 0 <= k < s1.len() && s1[k] == e;
                assert(s[k] == e);
                assert(s.contains(e));
                assert(e.0 != a.0) by {
                    assert(s[k].0 != s[s.len() - 1].0);
                }
                let m = choose|m: int| 0 <= m < t.len() && t[m] == e;
                assert(m != t.len() - 1);
                assert(t1[m] == e);
            }
            if t1.contains(e) {
                let k = choose|k: int| 0 <= k < t1.len() && t1[k] == e;
                assert(t[k] == e);
                assert(t.contains(e));
                assert(e.0 != b.0) by {
                    assert(t[k].0 != t[t.len() - 1].0);
                }
                let m = choose|m: int| 0 <= m < s.len() && s[m] == e;
                assert(m != s.len() - 1);
                assert(s1[m] == e);
            }
        }
        assert(keys_sorted(s1) && keys_distinct(s1)) by {
            assert forall|x: int, y: int| 0 <= x < y < s1.len() implies !key_lt((#[trigger] s1[y]).0, (#[trigger] s1[x]).0) && s1[x].0 != s1[y].0 by {
                assert(s1[x] == s[x] && s1[y] == s[y]);
            }
        }
        assert(keys_sorted(t1) && keys_distinct(t1)) by {
            assert forall|x: int, y: int| 0 <= x < y < t1.len() implies !key_lt((#[trigger] t1[y]).0, (#[trigger] t1[x]).0) && t1[x].0 != t1[y].0 by {
                assert(t1[x] == t[x] && t1[y] == t[y]);
            }
        }
        lemma_sorted_members_unique(s1, t1);
        assert(s =~= s1.push(a));
        assert(t =~= t1.push(b));
    }
}

/// The canonical member order does not depend on the order the members came
/// in: two member lists with the same members, no key twice, are put in the
/// same key order (so their canonical JSON, and its digest, are the same).
pub proof fn law_member_order_is_irrelevant(x: Seq<(Seq<char>, JsonView)>, y: Seq<(Seq<char>, JsonView)>)
    requires
        keys_distinct(x),
        keys_distinct(y),
        forall|e: (Seq<char>, JsonView)| x.contains(e) <==> y.contains(e),
    ensures
        sort_entries(x) == sort_entries(y),
{
    broadcast use vstd::seq_lib::group_to_multiset_ensures;
    law_sorted_members_are_ordered_and_kept(x);
    law_sorted_members_are_ordered_and_kept(y);
    lemma_sorting_keeps_distinct_keys(x);
    lemma_sorting_keeps_distinct_keys(y);
    let sx = sort_entries(x);
    let sy = sort_entries(y);
    assert forall|e: (Seq<char>, JsonView)| sx.contains(e) <==> sy.contains(e) by {
        assert(sx.contains(e) <==> sx.to_multiset().count(e) > 0);
        assert(sy.contains(e) <==> sy.to_multiset().count(e) > 0);
        assert(x.contains(e) <==> x.to_multiset().count(e) > 0);
        assert(y.contains(e) <==> y.to_multiset().count(e) > 0);
    }
    lemma_sorted_members_unique(sx, sy);
}

/// The members with their canonical values, when every value has one.
pub open spec fn canonical_members(entries: Seq<(String, JsonValue)>) -> Seq<(Seq<char>, JsonView)> {
    Seq::new(entries.len(), |i: int| (entries[i].0@, canon(entries[i].1)->0))
}

proof fn lemma_canon_entries_all(entries: Vec<(String, JsonValue)>, n: nat)
    requires
        n <= entries.len(),
        forall|i: int| 0 <= i < n ==> (#[trigger] canon(entries@[i].1)) is Some,
    ensures
        canon_entries(entries, n) == Some(canonical_members(entries@.take(n as int))),
    decreases n,
{
    if n > 0 {
        lemma_canon_entries_all(entries, (n - 1) as nat);
        assert(canonical_members(entries@.take(n as int)) =~= canonical_members(entries@.take(n - 1)).push(
            (entries@[n - 1].0@, canon(entries@[n - 1].1)->0),
        ));
    } else {
        assert(canonical_members(entries@.take(0)) =~= Seq::<(Seq<char>, JsonView)>::empty());
    }
}

/// Two JSON objects with the same members, in any order and no key twice,
/// have the same canonical form: the canonical digest ignores member order.
pub proof fn law_canonical_object_ignores_member_order(a: Vec<(String, JsonValue)>, b: Vec<(String, JsonValue)>)
    requires
        forall|i: int, j: int| 0 <= i < j < a.len() ==> (#[trigger] a@[i]).0@ != (#[trigger] a@[j]).0@,
        forall|i: int, j: int| 0 <= i < j < b.len() ==> (#[trigger] b@[i]).0@ != (#[trigger] b@[j]).0@,
        forall|e: (String, JsonValue)| a@.contains(e) <==> b@.contains(e),
    ensures
        canon(JsonValue::Object(a)) == canon(JsonValue::Object(b)),
{
    if forall|i: int| 0 <= i < a.len() ==> (#[trigger] canon(a@[i].1)) is Some {
        assert forall|j: int| 0 <= j < b.len() implies (#[trigger] canon(b@[j].1)) is Some by {
            assert(b@.contains(b@[j]));
            let i = choose|i: int| 0 <= i < a.len() && a@[i] == b@[j];
            assert(canon(a@[i].1) is Some);
        }
        lemma_canon_entries_all(a, a.len() as nat);
        lemma_canon_entries_all(b, b.len() as nat);
        assert(a@.take(a.len() as int) =~= a@);
        assert(b@.take(b.len() as int) =~= b@);
        let ma = canonical_members(a@);
        let mb = canonical_members(b@);
        assert forall|e: (Seq<char>, JsonView)| ma.contains(e) implies mb.contains(e) by {
            let i = choose|i: int| 0 <= i < ma.len() && ma[i] == e;
            assert(a@.contains(a@[i]));
            let j = choose|j: int| 0 <= j < b.len() && b@[j] == a@[i];
            assert(mb[j] == e);
        }
        assert forall|e: (Seq<char>, JsonView)| mb.contains(e) implies ma.contains(e) by {
            let j = choose|j: int| 0 <= j < mb.len() && mb[j] == e;
            assert(b@.contains(b@[j]));
            let i = choose|i: int| 0 <= i < a.len() && a@[i] == b@[j];
            assert(ma[i] == e);
        }
        assert(keys_distinct(ma)) by {
            assert forall|i: int, j: int| 0 <= i < j < ma.len() implies (#[trigger] ma[i]).0 != (#[trigger] ma[j]).0 by {
                assert(a@[i].0@ != a@[j].0@);
            }
        }
        assert(keys_distinct(mb)) by {
            assert forall|i: int, j: int| 0 <= i < j < mb.len() implies (#[trigger] mb[i]).0 != (#[trigger] mb[j]).0 by {
                assert(b@[i].0@ != b@[j].0@);
            }
        }
        law_member_order_is_irrelevant(ma, mb);
    } else {
        let i = choose|i: int| 0 <= i < a.len() && !(canon(a@[i].1) is Some);
        assert(a@.contains(a@[i]));
        let j = choose|j: int| 0 <= j < b.len() && b@[j] == a@[i];
        lemma_canon_entries_none(a, i);
        lemma_canon_entries_none(b, j);
    }
}

proof fn lemma_canon_entries_none(entries: Vec<(String, JsonValue)>, i: int)
    requires
        0 <= i < entries.len(),
        canon(entries@[i].1) is None,
    ensures
        canon(JsonValue::Object(entries)) is None,
{
    if canon_entries(entries, i as nat) is None {
        lemma_canon_entries_stays_none(entries, i as nat, entries.len() as nat);
    } else {
        assert(canon_entries(entries, (i + 1) as nat) is None);
        lemma_canon_entries_stays_none(entries, (i + 1) as nat, entries.len() as nat);
    }
}

/// Every object in `v`, at any depth, lists its members in key order.
pub open spec fn deep_sorted(v: JsonView) -> bool
    decreases v, 0nat,
{
    match v {
        JsonView::Array(xs) => items_deep_sorted(xs, xs.len()),
        JsonView::Object(es) => keys_sorted(es) && members_deep_sorted(es, es.len()),
        _ => true,
    }
}

/// The first `n` items are sorted throughout (see `deep_sorted`).
pub open spec fn items_deep_sorted(xs: Seq<JsonView>, n: nat) -> bool
    decreases xs, n,
{
    if n == 0 || n > xs.len() {
        n == 0
    } else {
        items_deep_sorted(xs, (n - 1) as nat) && deep_sorted(xs[n - 1])
    }
}

/// The values of the first `n` members are sorted throughout (see `deep_sorted`).
pub open spec fn members_deep_sorted(es: Seq<(Seq<char>, JsonView)>, n: nat) -> bool
    decreases es, n,
{
    if n == 0 || n > es.len() {
        n == 0
    } else {
        proof {
            assert(decreases_to!(es => es[n - 1]));
            assert(decreases_to!(es[n - 1] => es[n - 1].1));
        }
        members_deep_sorted(es, (n - 1) as nat) && deep_sorted(es[n - 1].1)
    }
}

proof fn lemma_items_deep_sorted(s: Seq<JsonView>, n: nat)
    ensures
        items_deep_sorted(s, n) == (n <= s.len() && forall|i: int| 0 <= i < n ==> #[trigger] deep_sorted(s[i])),
    decreases n,
{
    if n > 0 && n <= s.len() {
        lemma_items_deep_sorted(s, (n - 1) as nat);
        assert(items_deep_sorted(s, n) == (items_deep_sorted(s, (n - 1) as nat) && deep_sorted(s[n - 1])));
        if forall|i: int| 0 <= i < n - 1 ==> #[trigger] deep_sorted(s[i]) {
            if deep_sorted(s[n - 1]) {
                assert forall|i: int| 0 <= i < n implies #[trigger] deep_sorted(s[i]) by {}
            }
        }
    }
}

proof fn lemma_members_deep_sorted(s: Seq<(Seq<char>, JsonView)>, n: nat)
    ensures
        members_deep_sorted(s, n) == (n <= s.len() && forall|i: int| 0 <= i < n ==> #[trigger] deep_sorted(s[i].1)),
    decreases n,
{
    if n > 0 && n <= s.len() {
        lemma_members_deep_sorted(s, (n - 1) as nat);
        assert(members_deep_sorted(s, n) == (members_deep_sorted(s, (n - 1) as nat) && deep_sorted(s[n - 1].1)));
        if forall|i: int| 0 <= i < n - 1 ==> #[trigger] deep_sorted(s[i].1) {
            if deep_sorted(s[n - 1].1) {
                assert forall|i: int| 0 <= i < n implies #[trigger] deep_sorted(s[i].1) by {}
            }
        }
    }
}

proof fn lemma_canon_items_sorted(items: Vec<JsonValue>, n: nat)
    ensures
        canon_items(items, n) matches Some(xs) ==> xs.len() == n && forall|i: int| 0 <= i < n ==> #[trigger] deep_sorted(xs[i]),
    decreases items, n,
{
    if n > 0 && n <= items.len() {
        lemma_canon_items_sorted(items, (n - 1) as nat);
        lemma_canon_sorted(items[n - 1]);
        if let Some(xs) = canon_items(items, n) {
            let prev = canon_items(items, (n - 1) as nat)->0;
            assert forall|i: int| 0 <= i < n implies #[trigger] deep_sorted(xs[i]) by {
                if i < n - 1 {
                    assert(xs[i] == prev[i]);
                }
            }
        }
    }
}

proof fn lemma_canon_entries_sorted(entries: Vec<(String, JsonValue)>, n: nat)
    ensures
        canon_entries(entries, n) matches Some(es) ==> es.len() == n && forall|i: int| 0 <= i < n ==> #[trigger] deep_sorted(es[i].1),
    decreases entries, n,
{
    if n > 0 && n <= entries.len() {
        lemma_canon_entries_sorted(entries, (n - 1) as nat);
        lemma_canon_sorted(entries[n - 1].1);
        if let Some(es) = canon_entries(entries, n) {
            let prev = canon_entries(entries, (n - 1) as nat)->0;
            assert forall|i: int| 0 <= i < n implies #[trigger] deep_sorted(es[i].1) by {
                if i < n - 1 {
                    assert(es[i] == prev[i]);
                }
            }
        }
    }
}

proof fn lemma_canon_sorted(v: JsonValue)
    ensures
        canon(v) matches Some(c) ==> deep_sorted(c),
    decreases v, 0nat,
{
    broadcast use vstd::seq_lib::group_to_multiset_ensures;
    match v {
        JsonValue::Array(items) => {
            lemma_canon_items_sorted(items, items.len() as nat);
            if let Some(xs) = canon_items(items, items.len() as nat) {
                lemma_items_deep_sorted(xs, xs.len());
            }
        },
        JsonValue::Object(entries) => {
            lemma_canon_entries_sorted(entries, entries.len() as nat);
            if let Some(es) = canon_entries(entries, entries.len() as nat) {
                law_sorted_members_are_ordered_and_kept(es);
                let sorted = sort_entries(es);
                assert forall|i: int| 0 <= i < sorted.len() implies #[trigger] deep_sorted(sorted[i].1) by {
                    assert(sorted.to_multiset().count(sorted[i]) > 0);
                    assert(es.to_multiset().count(sorted[i]) > 0);
                    assert(es.contains(sorted[i]));
                    let k = choose|k: int| 0 <= k < es.len() && es[k] == sorted[i];
                    assert(deep_sorted(es[k].1));
                }
                lemma_members_deep_sorted(sorted, sorted.len());
            }
        },
        _ => {},
    }
}

/// Canonical JSON lists the members of every object, at any depth, in key
/// order.
pub proof fn law_canonical_form_is_sorted_throughout(v: JsonValue)
    requires
        canon(v) is Some,
    ensures
        deep_sorted(canon(v)->0),
{
    lemma_canon_sorted(v);
}

/// No floating-point number occurs in `v`, at any depth.
pub open spec fn float_free(v: JsonView) -> bool
    decreases v, 0nat,
{
    match v {
        JsonView::Float(_) => false,
        JsonView::Array(xs) => items_float_free(xs, xs.len()),
        JsonView::Object(es) => members_float_free(es, es.len()),
        _ => true,
    }
}

/// The first `n` items are free of floating-point numbers.
pub open spec fn items_float_free(xs: Seq<JsonView>, n: nat) -> bool
    decreases xs, n,
{
    if n == 0 || n > xs.len() {
        n == 0
    } else {
        items_float_free(xs, (n - 1) as nat) && float_free(xs[n - 1])
    }
}

/// The values of the first `n` members are free of floating-point numbers.
pub open spec fn members_float_free(es: Seq<(Seq<char>, JsonView)>, n: nat) -> bool
    decreases es, n,
{
    if n == 0 || n > es.len() {
        n == 0
    } else {
        proof {
            assert(decreases_to!(es => es[n - 1]));
            assert(decreases_to!(es[n - 1] => es[n - 1].1));
        }
        members_float_free(es, (n - 1) as nat) && float_free(es[n - 1].1)
    }
}

proof fn lemma_items_float_free(s: Seq<JsonView>, n: nat)
    ensures
        items_float_free(s, n) == (n <= s.len() && forall|i: int| 0 <= i < n ==> #[trigger] float_free(s[i])),
    decreases n,
{
    if n > 0 && n <= s.len() {
        lemma_items_float_free(s, (n - 1) as nat);
        assert(items_float_free(s, n) == (items_float_free(s, (n - 1) as nat) && float_free(s[n - 1])));
        if forall|i: int| 0 <= i < n - 1 ==> #[trigger] float_free(s[i]) {
            if float_free(s[n - 1]) {
                assert forall|i: int| 0 <= i < n implies #[trigger] float_free(s[i]) by {}
            }
        }
    }
}

proof fn lemma_members_float_free(s: Seq<(Seq<char>, JsonView)>, n: nat)
    ensures
        members_float_free(s, n) == (n <= s.len() && forall|i: int| 0 <= i < n ==> #[trigger] float_free(s[i].1)),
    decreases n,
{
    if n > 0 && n <= s.len() {
        lemma_members_float_free(s, (n - 1) as nat);
        assert(members_float_free(s, n) == (members_float_free(s, (n - 1) as nat) && float_free(s[n - 1].1)));
        if forall|i: int| 0 <= i < n - 1 ==> #[trigger] float_free(s[i].1) {
            if float_free(s[n - 1].1) {
                assert forall|i: int| 0 <= i < n implies #[trigger] float_free(s[i].1) by {}
            }
        }
    }
}

proof fn lemma_canon_items_float_free(items: Vec<JsonValue>, n: nat)
    ensures
        canon_items(items, n) matches Some(xs) ==> xs.len() == n && forall|i: int| 0 <= i < n ==> #[trigger] float_free(xs[i]),
    decreases items, n,
{
    if n > 0 && n <= items.len() {
        lemma_canon_items_float_free(items, (n - 1) as nat);
        lemma_canon_float_free(items[n - 1]);
        if let Some(xs) = canon_items(items, n) {
            let prev = canon_items(items, (n - 1) as nat)->0;
            assert forall|i: int| 0 <= i < n implies #[trigger] float_free(xs[i]) by {
                if i < n - 1 {
                    assert(xs[i] == prev[i]);
                }
            }
        }
    }
}

proof fn lemma_canon_entries_float_free(entries: Vec<(String, JsonValue)>, n: nat)
    ensures
        canon_entries(entries, n) matches Some(es) ==> es.len() == n && forall|i: int| 0 <= i < n ==> #[trigger] float_free(es[i].1),
    decreases entries, n,
{
    if n > 0 && n <= entries.len() {
        lemma_canon_entries_float_free(entries, (n - 1) as nat);
        lemma_canon_float_free(entries[n - 1].1);
        if let Some(es) = canon_entries(entries, n) {
            let prev = canon_entries(entries, (n - 1) as nat)->0;
            assert forall|i: int| 0 <= i < n implies #[trigger] float_free(es[i].1) by {
                if i < n - 1 {
                    assert(es[i] == prev[i]);
                }
            }
        }
    }
}

proof fn lemma_canon_float_free(v: JsonValue)
    ensures
        canon(v) matches Some(c) ==> float_free(c),
    decreases v, 0nat,
{
    broadcast use vstd::seq_lib::group_to_multiset_ensures;
    match v {
        JsonValue::Array(items) => {
            lemma_canon_items_float_free(items, items.len() as nat);
            if let Some(xs) = canon_items(items, items.len() as nat) {
                lemma_items_float_free(xs, xs.len());
            }
        },
        JsonValue::Object(entries) => {
            lemma_canon_entries_float_free(entries, entries.len() as nat);
            if let Some(es) = canon_entries(entries, entries.len() as nat) {
                law_sorted_members_are_ordered_and_kept(es);
                let sorted = sort_entries(es);
                assert forall|i: int| 0 <= i < sorted.len() implies #[trigger] float_free(sorted[i].1) by {
                    assert(sorted.to_multiset().count(sorted[i]) > 0);
                    assert(es.to_multiset().count(sorted[i]) > 0);
                    assert(es.contains(sorted[i]));
                    let k = choose|k: int| 0 <= k < es.len() && es[k] == sorted[i];
                    assert(float_free(es[k].1));
                }
                lemma_members_float_free(sorted, sorted.len());
            }
        },
        _ => {},
    }
}

proof fn lemma_sorting_sorted_members(es: Seq<(Seq<char>, JsonView)>)
    requires
        keys_sorted(es),
    ensures
        sort_entries(es) == es,
    decreases es.len(),
{
    if es.len() > 0 {
        let rest = es.drop_last();
        assert(keys_sorted(rest)) by {
            assert forall|i: int, j: int| 0 <= i < j < rest.len() implies !key_lt((#[trigger] rest[j]).0, (#[trigger] rest[i]).0) by {
                assert(rest[i] == es[i] && rest[j] == es[j]);
            }
        }
        lemma_sorting_sorted_members(rest);
        let x = es.last();
        lemma_insert_position(rest, x.0);
        let p = insert_position(rest, x.0);
        if p < rest.len() {
            assert(key_lt(x.0, rest[p].0));
            assert(rest[p] == es[p]);
            assert(!key_lt(es[es.len() - 1].0, es[p].0));
        }
        assert(rest.insert(rest.len() as int, x) =~= es);
    }
}

proof fn lemma_canon_items_fixed(items: Vec<JsonValue>, n: nat)
    requires
        n <= items.len(),
        forall|i: int| 0 <= i < n ==> float_free(json_view(#[trigger] items@[i])) && deep_sorted(json_view(items@[i])),
    ensures
        canon_items(items, n) == Some(Seq::new(n, |i: int| json_view(items@[i]))),
    decreases items, n,
{
    if n > 0 {
        lemma_canon_items_fixed(items, (n - 1) as nat);
        lemma_canon_fixed(items[n - 1]);
        assert(Seq::new(n, |i: int| json_view(items@[i])) =~= Seq::new((n - 1) as nat, |i: int| json_view(items@[i])).push(json_view(items@[n - 1])));
    } else {
        assert(Seq::new(0, |i: int| json_view(items@[i])) =~= Seq::<JsonView>::empty());
    }
}

proof fn lemma_canon_entries_fixed(entries: Vec<(String, JsonValue)>, n: nat)
    requires
        n <= entries.len(),
        forall|i: int| 0 <= i < n ==> float_free(json_view((#[trigger] entries@[i]).1)) && deep_sorted(json_view(entries@[i].1)),
    ensures
        canon_entries(entries, n) == Some(json_entries(entries@.take(n as int))),
    decreases entries, n,
{
    if n > 0 {
        lemma_canon_entries_fixed(entries, (n - 1) as nat);
        lemma_canon_fixed(entries[n - 1].1);
        assert(json_entries(entries@.take(n as int)) =~= json_entries(entries@.take(n - 1)).push((entries@[n - 1].0@, json_view(entries@[n - 1].1))));
    } else {
        assert(json_entries(entries@.take(0)) =~= Seq::<(Seq<char>, JsonView)>::empty());
    }
}

proof fn lemma_canon_fixed(w: JsonValue)
    requires
        float_free(json_view(w)),
        deep_sorted(json_view(w)),
    ensures
        canon(w) == Some(json_view(w)),
    decreases w, 0nat,
{
    match w {
        JsonValue::Array(items) => {
            let xs = Seq::new(items.len() as nat, |i: int| if 0 <= i < items.len() { json_view(items[i]) } else { JsonView::Null });
            if let JsonView::Array(a) = json_view(w) {
                assert(a =~= xs);
            }
            assert(json_view(w) == JsonView::Array(xs));
            lemma_items_float_free(xs, xs.len());
            lemma_items_deep_sorted(xs, xs.len());
            assert forall|i: int| 0 <= i < items.len() implies float_free(json_view(#[trigger] items@[i])) && deep_sorted(json_view(items@[i])) by {
                assert(xs[i] == json_view(items@[i]));
            }
            lemma_canon_items_fixed(items, items.len() as nat);
            assert(Seq::new(items.len() as nat, |i: int| json_view(items@[i])) =~= xs);
        },
        JsonValue::Object(entries) => {
            let es = Seq::new(entries.len() as nat, |i: int| if 0 <= i < entries.len() { (entries[i].0@, json_view(entries[i].1)) } else { (Seq::empty(), JsonView::Null) });
            if let JsonView::Object(a) = json_view(w) {
                assert(a =~= es);
            }
            assert(json_view(w) == JsonView::Object(es));
            lemma_members_float_free(es, es.len());
            lemma_members_deep_sorted(es, es.len());
            assert forall|i: int| 0 <= i < entries.len() implies float_free(json_view((#[trigger] entries@[i]).1)) && deep_sorted(json_view(entries@[i].1)) by {
                assert(es[i].1 == json_view(entries@[i].1));
            }
            lemma_canon_entries_fixed(entries, entries.len() as nat);
            assert(entries@.take(entries.len() as int) =~= entries@);
            assert(json_entries(entries@) =~= es);
            lemma_sorting_sorted_members(es);
        },
        _ => {},
    }
}

/// Canonicalizing is idempotent: any value whose JSON is a canonical form
/// (so also the canonical form itself) canonicalizes to that same form.
pub proof fn law_canonicalizing_twice_changes_nothing(v: JsonValue, w: JsonValue)
    requires
        canon(v) is Some,
        json_view(w) == canon(v)->0,
    ensures
        canon(w) == canon(v),
{
    lemma_canon_float_free(v);
    lemma_canon_sorted(v);
    lemma_canon_fixed(w);
}

/// `v` with the members of every object, at any depth, put in key order
/// (see `sort_entries`); nothing else changes.
pub open spec fn sorted_view(v: JsonView) -> JsonView
    decreases v, 0nat,
{
    match v {
        JsonView::Array(xs) => JsonView::Array(sorted_items(xs, xs.len())),
        JsonView::Object(es) => JsonView::Object(sort_entries(sorted_members(es, es.len()))),
        _ => v,
    }
}

/// The first `n` items, each sorted throughout (see `sorted_view`).
pub open spec fn sorted_items(xs: Seq<JsonView>, n: nat) -> Seq<JsonView>
    decreases xs, n,
{
    if n == 0 || n > xs.len() {
        Seq::empty()
    } else {
        sorted_items(xs, (n - 1) as nat).push(sorted_view(xs[n - 1]))
    }
}

/// The first `n` members, each value sorted throughout (see `sorted_view`).
pub open spec fn sorted_members(es: Seq<(Seq<char>, JsonView)>, n: nat) -> Seq<(Seq<char>, JsonView)>
    decreases es, n,
{
    if n == 0 || n > es.len() {
        Seq::empty()
    } else {
        proof {
            assert(decreases_to!(es => es[n - 1]));
            assert(decreases_to!(es[n - 1] => es[n - 1].1));
        }
        sorted_members(es, (n - 1) as nat).push((es[n - 1].0, sorted_view(es[n - 1].1)))
    }
}

/// The JSON views of the items of an array.
pub open spec fn item_views(items: Vec<JsonValue>) -> Seq<JsonView> {
    Seq::new(items.len() as nat, |i: int| if 0 <= i < items.len() { json_view(items[i]) } else { JsonView::Null })
}

/// The JSON views of the members of an object.
pub open spec fn member_views(entries: Vec<(String, JsonValue)>) -> Seq<(Seq<char>, JsonView)> {
    Seq::new(entries.len() as nat, |i: int| if 0 <= i < entries.len() { (entries[i].0@, json_view(entries[i].1)) } else { (Seq::empty(), JsonView::Null) })
}

proof fn lemma_canon_items_same(items: Vec<JsonValue>, n: nat)
    requires
        n <= items.len(),
    ensures
        canon_items(items, n) matches Some(xs) ==> xs == sorted_items(item_views(items), n),
    decreases items, n,
{
    if n > 0 {
        lemma_canon_items_same(items, (n - 1) as nat);
        lemma_canon_same(items[n - 1]);
        assert(item_views(items)[n - 1] == json_view(items@[n - 1]));
    }
}

proof fn lemma_canon_entries_same(entries: Vec<(String, JsonValue)>, n: nat)
    requires
        n <= entries.len(),
    ensures
        canon_entries(entries, n) matches Some(es) ==> es == sorted_members(member_views(entries), n),
    decreases entries, n,
{
    if n > 0 {
        lemma_canon_entries_same(entries, (n - 1) as nat);
        lemma_canon_same(entries[n - 1].1);
        assert(member_views(entries)[n - 1] == (entries@[n - 1].0@, json_view(entries@[n - 1].1)));
    }
}

proof fn lemma_canon_same(w: JsonValue)
    ensures
        canon(w) matches Some(c) ==> c == sorted_view(json_view(w)),
    decreases w, 0nat,
{
    match w {
        JsonValue::Array(items) => {
            lemma_canon_items_same(items, items.len() as nat);
            if let JsonView::Array(a) = json_view(w) {
                assert(a =~= item_views(items));
            }
        },
        JsonValue::Object(entries) => {
            lemma_canon_entries_same(entries, entries.len() as nat);
            if let JsonView::Object(a) = json_view(w) {
                assert(a =~= member_views(entries));
            }
        },
        _ => {},
    }
}

/// Canonical JSON is the same value: what canonicalizing gives is the value
/// with the members of every object, at any depth, put in key order, and
/// nothing else changed.
pub proof fn law_canonical_form_is_the_same_value(v: JsonValue)
    requires
        canon(v) is Some,
    ensures
        canon(v)->0 == sorted_view(json_view(v)),
{
    lemma_canon_same(v);
}

fn key_less(a: &str, b: &str) -> (r: bool)
    ensures
        r == key_lt(a@, b@),
{
    let x = to_chars(a);
    let y = to_chars(b);
    let mut i: usize = 0;
    assert(a@.skip(0) =~= a@);
    assert(b@.skip(0) =~= b@);
    while i < x.len() && i < y.len() && x[i] == y[i]
        invariant
            i <= x.len(),
            i <= y.len(),
            x@ == a@,
            y@ == b@,
            key_lt(a@, b@) == key_lt(a@.skip(i as int), b@.skip(i as int)),
        decreases x.len() - i,
    {
        assert(a@.skip(i as int).drop_first() =~= a@.skip(i + 1));
        assert(b@.skip(i as int).drop_first() =~= b@.skip(i + 1));
        i += 1;
    }
    if i == x.len() {
        i < y.len()
    } else if i == y.len() {
        false
    } else {
        (x[i] as u32) < (y[i] as u32)
    }
}

fn invalid_parameters() -> (e: AgentBrokerError)
    ensures
        e.code@ == "invalid-parameters"@,
        !e.retryable,
{
    proof {
        reveal_strlit("invalid-parameters");
    }
    AgentBrokerError::new("invalid-parameters", "Floating-point Agent parameters are not canonical.", false)
}

/// The canonical form of JSON parameters (see `canon`); refused as
/// `invalid-parameters` when they hold a floating-point number.
pub fn canonicalize_json(value: &JsonValue) -> (r: Result<JsonValue, AgentBrokerError>)
    ensures
        match canon(*value) {
            Some(c) => r matches Ok(v) && json_view(v) == c,
            None => r matches Err(e) && e.code@ == "invalid-parameters"@ && !e.retryable,
        },
    decreases value,
{
    match value {
        JsonValue::Null => Ok(JsonValue::Null),
        JsonValue::Bool(b) => Ok(JsonValue::Bool(*b)),
        JsonValue::Integer(n) => Ok(JsonValue::Integer(*n)),
        JsonValue::Float(_) => Err(invalid_parameters()),
        JsonValue::String(s) => Ok(JsonValue::String(s.clone())),
        JsonValue::Array(items) => {
            let mut out: Vec<JsonValue> = Vec::new();
            let mut i: usize = 0;
            while i < items.len()
                invariant
                    i <= items.len(),
                    *value == JsonValue::Array(*items),
                    canon_items(*items, i as nat) == Some(Seq::new(i as nat, |k: int| json_view(out@[k]))),
                    out.len() == i,
                decreases items.len() - i,
            {
                proof {
                    assert(decreases_to!(*value => (*value)->Array_0));
                    assert(decreases_to!((*value)->Array_0 => (*value)->Array_0[i as int]));
                }
                let ghost before = Seq::new(i as nat, |k: int| json_view(out@[k]));
                match canonicalize_json(&items[i]) {
                    Ok(c) => {
                        out.push(c);
                        assert(Seq::new((i + 1) as nat, |k: int| json_view(out@[k])) =~= before.push(json_view(c)));
                    },
                    Err(e) => {
                        proof {
                            lemma_canon_items_stays_none(*items, (i + 1) as nat, items.len() as nat);
                        }
                        return Err(e);
                    },
                }
                i += 1;
            }
            let r = JsonValue::Array(out);
            proof {
                if let JsonView::Array(a) = json_view(r) {
                    assert(a =~= Seq::new(items.len() as nat, |k: int| json_view(out@[k])));
                }
            }
            Ok(r)
        },
        JsonValue::Object(entries) => {
            let mut members: Vec<(String, JsonValue)> = Vec::new();
            let mut i: usize = 0;
            while i < entries.len()
                invariant
                    i <= entries.len(),
                    *value == JsonValue::Object(*entries),
                    members.len() == i,
                    canon_entries(*entries, i as nat) == Some(json_entries(members@)),
                decreases entries.len() - i,
            {
                proof {
                    assert(decreases_to!(*value => (*value)->Object_0));
                    assert(decreases_to!((*value)->Object_0 => (*value)->Object_0[i as int]));
                    assert(decreases_to!((*value)->Object_0[i as int] => (*value)->Object_0[i as int].1));
                }
                let ghost before = json_entries(members@);
                match canonicalize_json(&entries[i].1) {
                    Ok(c) => {
                        let k = entries[i].0.clone();
                        members.push((k, c));
                        assert(json_entries(members@) =~= before.push((entries@[i as int].0@, json_view(c))));
                    },
                    Err(e) => {
                        proof {
                            lemma_canon_entries_stays_none(*entries, (i + 1) as nat, entries.len() as nat);
                        }
                        return Err(e);
                    },
                }
                i += 1;
            }
            let ghost es = json_entries(members@);
            let mut out: Vec<(String, JsonValue)> = Vec::new();
            let mut m: usize = 0;
            let mut rest = members;
            let ghost all = rest@;
            assert(rest@.len() == rest.len());
            while rest.len() > 0
                invariant
                    m + rest@.len() == all.len(),
                    all.len() <= usize::MAX,
                    rest@ == all.skip(m as int),
                    json_entries(all) == es,
                    json_entries(out@) == sort_entries(es.take(m as int)),
                decreases rest.len(),
            {
                let (key, val) = rest.remove(0);
                assert(all[m as int] == (key, val));
                let ghost sorted = json_entries(out@);
                let mut p: usize = 0;
                assert(sorted.skip(0) =~= sorted);
                while p < out.len() && !key_less(key.as_str(), out[p].0.as_str())
                    invariant
                        p <= out.len(),
                        sorted == json_entries(out@),
                        insert_position(sorted, key@) == p + insert_position(sorted.skip(p as int), key@),
                    decreases out.len() - p,
                {
                    assert(sorted.skip(p as int).drop_first() =~= sorted.skip(p + 1));
                    assert(sorted.skip(p as int)[0] == sorted[p as int]);
                    p += 1;
                }
                assert(insert_position(sorted, key@) == p) by {
                    if p < out.len() {
                        assert(sorted.skip(p as int)[0] == sorted[p as int]);
                    }
                }
                out.insert(p, (key, val));
                proof {
                    assert(es.take(m + 1).drop_last() =~= es.take(m as int));
                    assert(es.take(m + 1).last() == es[m as int]);
                    assert(json_entries(out@) =~= sorted.insert(p as int, es[m as int]));
                }
                m += 1;
                assert(rest@ =~= all.skip(m as int));
            }
            assert(es.take(es.len() as int) =~= es);
            let r = JsonValue::Object(out);
            proof {
                if let JsonView::Object(a) = json_view(r) {
                    assert(a =~= json_entries(out@));
                }
                assert(json_view(r) == JsonView::Object(sort_entries(es)));
                assert(canon(*value) == Some(JsonView::Object(sort_entries(es))));
            }
            Ok(r)
        },
    }
}

/// The digest of parameters from their canonical JSON bytes: `sha256:` and
/// the lower-case hexadecimal SHA-256 digest.
pub fn parameters_digest(canonical_bytes: &[u8]) -> (r: String)
    ensures
        r@ == "sha256:"@ + lower_hex(sha256_digest(canonical_bytes@)),
{
    let digest = sha256(canonical_bytes);
    let hex = hex_lower(digest.as_slice());
    concat("sha256:", hex.as_str())
}


/// The digest of JSON parameters: `sha256:` and the lower-case hexadecimal
/// SHA-256 digest of the UTF-8 compact JSON text of their canonical form.
/// Parameters with a floating-point number are refused as
/// `invalid-parameters`; a canonical form without a JSON text (a string
/// that serde_json would not write) is an internal fault.
pub fn canonical_parameters_digest(parameters: &JsonValue) -> (r: Result<String, AgentBrokerError>)
    ensures
        match canon(*parameters) {
            None => r matches Err(e) && e.code@ == "invalid-parameters"@ && !e.retryable,
            Some(c) => match json_text(c) {
                Some(t) => r matches Ok(d) && d@ == "sha256:"@ + lower_hex(sha256_digest(vstd::utf8::encode_utf8(t))),
                None => r matches Err(e) && e.code@ == "broker-unavailable"@,
            },
        },
{
    let canonical = canonicalize_json(parameters)?;
    let chars = match json_chars(&canonical) {
        Some(c) => c,
        None => return Err(AgentBrokerError::internal()),
    };
    let text = from_chars(&chars);
    let bytes = str_bytes(text.as_str());
    Ok(parameters_digest(bytes.as_slice()))
}

} // verus!
