//! The compact JSON text of a value, as `serde_json::to_vec` writes it:
//! members in the order given, no white space, strings escaped by serde_json.
use vstd::prelude::*;
use crate::json::{json_view, JsonValue, JsonView};
use crate::text::{decimal, digit_char, to_chars};
use crate::web::{json_quote, json_string_literal};

verus! {

broadcast use vstd::string::group_string_axioms;

/// The text of an integer: its decimal digits, after `-` when negative.
pub open spec fn integer_text(n: i128) -> Seq<char> {
    if n >= 0 {
        decimal(n as nat)
    } else {
        seq!['-'] + decimal((-n) as nat)
    }
}

/// The compact JSON text of a value (a floating-point number as the text it
/// holds); `None` for a string that serde_json does not write.
pub open spec fn json_text(v: JsonView) -> Option<Seq<char>>
    decreases v, 0nat,
{
    match v {
        JsonView::Null => Some("null"@),
        JsonView::Bool(b) => Some(if b { "true"@ } else { "false"@ }),
        JsonView::Integer(n) => Some(integer_text(n)),
        JsonView::Float(t) => Some(t),
        JsonView::String(s) => json_string_literal(s),
        JsonView::Array(items) => match items_text(items, items.len()) {
            Some(t) => Some(seq!['['] + t + seq![']']),
            None => None,
        },
        JsonView::Object(members) => match members_text(members, members.len()) {
            Some(t) => Some(seq!['{'] + t + seq!['}']),
            None => None,
        },
    }
}

/// The texts of the first `n` items, separated by `,`.
pub open spec fn items_text(items: Seq<JsonView>, n: nat) -> Option<Seq<char>>
    decreases items, n,
{
    if n == 0 || n > items.len() {
        if n == 0 { Some(Seq::empty()) } else { None }
    } else {
        match (items_text(items, (n - 1) as nat), json_text(items[n - 1])) {
            (Some(head), Some(last)) => Some(if n == 1 { last } else { head + seq![','] + last }),
            _ => None,
        }
    }
}

/// The texts of the first `n` members (`"key":value`), separated by `,`.
pub open spec fn members_text(members: Seq<(Seq<char>, JsonView)>, n: nat) -> Option<Seq<char>>
    decreases members, n,
{
    if n == 0 || n > members.len() {
        if n == 0 { Some(Seq::empty()) } else { None }
    } else {
        match (members_text(members, (n - 1) as nat), json_string_literal(members[n - 1].0), json_text(members[n - 1].1)) {
            (Some(head), Some(key), Some(value)) => {
                let member = key + seq![':'] + value;
                Some(if n == 1 { member } else { head + seq![','] + member })
            },
            _ => None,
        }
    }
}

fn push_all(out: &mut Vec<char>, text: &str)
    ensures
        final(out)@ == old(out)@ + text@,
{
    let chars = to_chars(text);
    let mut i: usize = 0;
    while i < chars.len()
        invariant
            i <= chars.len(),
            chars@ == text@,
            out@ == old(out)@ + text@.take(i as int),
        decreases chars.len() - i,
    {
        out.push(chars[i]);
        assert(text@.take(i + 1) =~= text@.take(i as int).push(text@[i as int]));
        i += 1;
    }
    assert(text@.take(text@.len() as int) =~= text@);
}

fn push_decimal(out: &mut Vec<char>, n: u128)
    ensures
        final(out)@ == old(out)@ + decimal(n as nat),
    decreases n,
{
    if n >= 10 {
        push_decimal(out, n / 10);
    }
    let d = (n % 10) as u8;
    out.push((d + 48) as char);
    assert(((d + 48) as char) == digit_char((n % 10) as nat));
    proof {
        if n < 10 {
            assert(decimal(n as nat) =~= seq![digit_char(n as nat)]);
        }
    }
}

/// Appends the compact JSON text of `v` to `out`, when it has one, and says
/// whether it has one (when not, `out` may hold part of the text).
fn write_json(v: &JsonValue, out: &mut Vec<char>) -> (ok: bool)
    ensures
        ok == json_text(json_view(*v)) is Some,
        ok ==> final(out)@ == old(out)@ + json_text(json_view(*v))->0,
    decreases v,
{
    match v {
        JsonValue::Null => {
            push_all(out, "null");
            true
        },
        JsonValue::Bool(b) => {
            if *b {
                push_all(out, "true");
            } else {
                push_all(out, "false");
            }
            true
        },
        JsonValue::Integer(n) => {
            if *n >= 0 {
                push_decimal(out, *n as u128);
            } else {
                out.push('-');
                let magnitude: u128 = ((-(*n + 1)) as u128) + 1;
                assert(magnitude as nat == (-*n) as nat);
                push_decimal(out, magnitude);
                assert(out@ =~= old(out)@ + integer_text(*n));
            }
            true
        },
        JsonValue::Float(t) => {
            push_all(out, t.as_str());
            true
        },
        JsonValue::String(s) => {
            match json_quote(s.as_str()) {
                Some(lit) => {
                    push_all(out, lit.as_str());
                    true
                },
                None => false,
            }
        },
        JsonValue::Array(items) => {
            let ghost views = Seq::new(items.len() as nat, |i: int| json_view(items@[i]));
            assert(json_view(*v) == JsonView::Array(views)) by {
                if let JsonView::Array(a) = json_view(*v) {
                    assert(a =~= views);
                }
            }
            let ghost start = out@;
            out.push('[');
            let mut i: usize = 0;
            while i < items.len()
                invariant
                    i <= items.len(),
                    *v == JsonValue::Array(*items),
                    views == Seq::new(items.len() as nat, |i: int| json_view(items@[i])),
                    json_view(*v) == JsonView::Array(views),
                    items_text(views, i as nat) matches Some(t) && out@ == start + seq!['['] + t,
                decreases items.len() - i,
            {
                proof {
                    assert(decreases_to!(*v => (*v)->Array_0));
                    assert(decreases_to!((*v)->Array_0 => (*v)->Array_0[i as int]));
                }
                let ghost head = items_text(views, i as nat)->0;
                if i > 0 {
                    out.push(',');
                }
                let ok = write_json(&items[i], out);
                if !ok {
                    proof {
                        assert(views[i as int] == json_view(items@[i as int]));
                        lemma_items_stay_none(views, (i + 1) as nat, items.len() as nat);
                    }
                    return false;
                }
                assert(views[i as int] == json_view(items@[i as int]));
                assert(out@ =~= start + seq!['['] + items_text(views, (i + 1) as nat)->0);
                i += 1;
            }
            out.push(']');
            true
        },
        JsonValue::Object(members) => {
            let ghost views = Seq::new(members.len() as nat, |i: int| (members@[i].0@, json_view(members@[i].1)));
            assert(json_view(*v) == JsonView::Object(views)) by {
                if let JsonView::Object(a) = json_view(*v) {
                    assert(a =~= views);
                }
            }
            let ghost start = out@;
            out.push('{');
            let mut i: usize = 0;
            while i < members.len()
                invariant
                    i <= members.len(),
                    *v == JsonValue::Object(*members),
                    views == Seq::new(members.len() as nat, |i: int| (members@[i].0@, json_view(members@[i].1))),
                    json_view(*v) == JsonView::Object(views),
                    members_text(views, i as nat) matches Some(t) && out@ == start + seq!['{'] + t,
                decreases members.len() - i,
            {
                proof {
                    assert(decreases_to!(*v => (*v)->Object_0));
                    assert(decreases_to!((*v)->Object_0 => (*v)->Object_0[i as int]));
                    assert(decreases_to!((*v)->Object_0[i as int] => (*v)->Object_0[i as int].1));
                }
                if i > 0 {
                    out.push(',');
                }
                let key = match json_quote(members[i].0.as_str()) {
                    Some(k) => k,
                    None => {
                        proof {
                            assert(views[i as int] == (members@[i as int].0@, json_view(members@[i as int].1)));
                            lemma_members_stay_none(views, (i + 1) as nat, members.len() as nat);
                        }
                        return false;
                    },
                };
                push_all(out, key.as_str());
                out.push(':');
                let ok = write_json(&members[i].1, out);
                if !ok {
                    proof {
                        assert(views[i as int] == (members@[i as int].0@, json_view(members@[i as int].1)));
                        lemma_members_stay_none(views, (i + 1) as nat, members.len() as nat);
                    }
                    return false;
                }
                assert(views[i as int] == (members@[i as int].0@, json_view(members@[i as int].1)));
                assert(out@ =~= start + seq!['{'] + members_text(views, (i + 1) as nat)->0);
                i += 1;
            }
            out.push('}');
            true
        },
    }
}

proof fn lemma_items_stay_none(items: Seq<JsonView>, k: nat, n: nat)
    requires
        0 < k <= n <= items.len(),
        items_text(items, k) is None,
    ensures
        items_text(items, n) is None,
    decreases n - k,
{
    if k < n {
        lemma_items_stay_none(items, k, (n - 1) as nat);
    }
}

proof fn lemma_members_stay_none(members: Seq<(Seq<char>, JsonView)>, k: nat, n: nat)
    requires
        0 < k <= n <= members.len(),
        members_text(members, k) is None,
    ensures
        members_text(members, n) is None,
    decreases n - k,
{
    if k < n {
        lemma_members_stay_none(members, k, (n - 1) as nat);
    }
}

/// The compact JSON text of a value (see `json_text`), when it has one.
pub fn json_chars(v: &JsonValue) -> (r: Option<Vec<char>>)
    ensures
        match json_text(json_view(*v)) {
            Some(t) => r matches Some(c) && c@ == t,
            None => r is None,
        },
{
    let mut out: Vec<char> = Vec::new();
    if write_json(v, &mut out) {
        assert(out@ =~= Seq::<char>::empty() + json_text(json_view(*v))->0);
        Some(out)
    } else {
        None
    }
}

} // verus!
