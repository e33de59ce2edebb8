//! Upstream refusals worth remembering: which failing answers block a
//! request for good (unsafe images, moderation, blocked content).
use vstd::prelude::*;

use crate::codec::{utf8_lossy, utf8_lossy_text};
use crate::crypto::{hex_lower, sha256_digest, sha256_hex_text};
use crate::json::{
    lemma_model_fields_all, lemma_model_fields_ext, lemma_model_seq_all, lemma_model_seq_ext, model,
    model_fields, model_seq, Json, JsonValue,
};
use crate::json_text::{json_compact_text, to_json_string};
use crate::keyed::{
    distinct_names, first_value, has_key, keep, key_differs, lemma_first_value_absent,
    lemma_first_value_at, lemma_first_value_contains, lemma_first_value_distinct,
    lemma_has_key_contains, lemma_keep_all, lemma_keep_cons, lemma_keep_contains,
    lemma_keep_distinct, lemma_keep_ext, lemma_keep_keep, lemma_names_cons,
    lemma_without_key_drops, member_names, without_key, put_entry, entries_ok, lemma_put_entry_ok,
};
use crate::text::{
    chars_of, concat, contains, contains_vec, lemma_lex_irreflexive, lemma_lex_total,
    lemma_lex_transitive, lex_lt, lex_lt_vec, lower, lower_vec, seq_eq, strictly_sorted, utf8,
};

verus! {

/// Why an upstream answer blocks its request: only a 400 or 502 status
/// counts, with one of the known phrases in its (lower-cased) text.
pub open spec fn spec_block_reason(status: u16, body: Seq<u8>) -> Option<Seq<char>> {
    if status != 400 && status != 502 {
        None
    } else {
        let text = lower(utf8_lossy_text(body));
        if contains(text, "image_unsafe"@) {
            Some("image_unsafe"@)
        } else if contains(text, "upstream moderation triggered"@) {
            Some("upstream_moderation"@)
        } else if contains(text, "content blocked"@) {
            Some("content_blocked"@)
        } else {
            None
        }
    }
}

/// The reason an upstream answer blocks its request, if it does.
pub fn classify_blockable_upstream_error(status: u16, body: &[u8]) -> (r: Option<&'static str>)
    ensures
        match r {
            Some(s) => spec_block_reason(status, body@) == Some(s@),
            None => spec_block_reason(status, body@) is None,
        },
{
    if status != 400 && status != 502 {
        return None;
    }
    let text = utf8_lossy(body);
    let tv = chars_of(text.as_str());
    let lv = lower_vec(&tv);
    let a = chars_of("image_unsafe");
    if contains_vec(&lv, &a) {
        return Some("image_unsafe");
    }
    let b = chars_of("upstream moderation triggered");
    if contains_vec(&lv, &b) {
        return Some("upstream_moderation");
    }
    let c = chars_of("content blocked");
    if contains_vec(&lv, &c) {
        return Some("content_blocked");
    }
    None
}


// ---------------------------------------------------------------------
// Canonical form of a request body
// ---------------------------------------------------------------------


/// Adds a member to members ordered by name, before the first name that
/// is greater; a name already there keeps its member.
pub open spec fn insert_member(s: Seq<(Seq<char>, Json)>, f: (Seq<char>, Json)) -> Seq<(Seq<char>, Json)>
    decreases s.len(),
{
    if s.len() == 0 {
        seq![f]
    } else if s[0].0 == f.0 {
        s
    } else if lex_lt(f.0, s[0].0) {
        seq![f] + s
    } else {
        seq![s[0]] + insert_member(s.drop_first(), f)
    }
}

/// The canonical form of a document: every object's members ordered by
/// name (the first of a repeated name kept), arrays kept in order.
pub open spec fn canonical_value(v: Json) -> Json
    decreases v,
{
    match v {
        Json::Array(items) => Json::Array(canonical_items(items)),
        Json::Object(fs) => Json::Object(canonical_members(fs)),
        _ => v,
    }
}

pub open spec fn canonical_items(items: Seq<Json>) -> Seq<Json>
    decreases items,
{
    if items.len() == 0 {
        Seq::empty()
    } else {
        canonical_items(items.subrange(0, items.len() - 1)).push(
            canonical_value(items[items.len() - 1]),
        )
    }
}

pub open spec fn canonical_members(fs: Seq<(Seq<char>, Json)>) -> Seq<(Seq<char>, Json)>
    decreases fs,
{
    if fs.len() == 0 {
        Seq::empty()
    } else {
        insert_member(
            canonical_members(fs.subrange(0, fs.len() - 1)),
            (fs[fs.len() - 1].0, canonical_value(fs[fs.len() - 1].1)),
        )
    }
}


/// Two documents that differ at most in the order of object members.
pub open spec fn same_up_to_member_order(a: Json, b: Json) -> bool
    decreases a,
{
    match a {
        Json::Array(xs) => match b {
            Json::Array(ys) => xs.len() == ys.len() && forall|i: int|
                0 <= i < xs.len() ==> same_up_to_member_order(#[trigger] xs[i], ys[i]),
            _ => false,
        },
        Json::Object(fa) => match b {
            Json::Object(fb) => {
                &&& distinct_names(fa)
                &&& distinct_names(fb)
                &&& forall|k: Seq<char>| #[trigger]
                    member_names(fa).contains(k) <==> member_names(fb).contains(k)
                &&& forall|i: int, j: int|
                    0 <= i < fa.len() && 0 <= j < fb.len() && fa[i].0 == fb[j].0
                        ==> same_up_to_member_order(#[trigger] fa[i].1, #[trigger] fb[j].1)
            },
            _ => false,
        },
        _ => a == b,
    }
}




proof fn lemma_first_value_init(s: Seq<(Seq<char>, Json)>, k: Seq<char>)
    requires
        s.len() > 0,
    ensures
        first_value(s, k) == (match first_value(s.subrange(0, s.len() - 1), k) {
            Some(v) => Some(v),
            None => if s[s.len() - 1].0 == k {
                Some(s[s.len() - 1].1)
            } else {
                None
            },
        }),
    decreases s.len(),
{
    let init = s.subrange(0, s.len() - 1);
    if s.len() == 1 {
        assert(init.len() == 0);
        assert(s.drop_first().len() == 0);
    } else if s[0].0 != k {
        let t = s.drop_first();
        lemma_first_value_init(t, k);
        assert(t.subrange(0, t.len() - 1) =~= init.drop_first());
        assert(init[0] == s[0]);
        assert(t[t.len() - 1] == s[s.len() - 1]);
    } else {
        assert(init[0] == s[0]);
    }
}

proof fn lemma_insert_member(s: Seq<(Seq<char>, Json)>, f: (Seq<char>, Json))
    requires
        strictly_sorted(member_names(s)),
    ensures
        strictly_sorted(member_names(insert_member(s, f))),
        forall|k: Seq<char>| #[trigger]
            first_value(insert_member(s, f), k) == (match first_value(s, k) {
                Some(v) => Some(v),
                None => if k == f.0 {
                    Some(f.1)
                } else {
                    None
                },
            }),
    decreases s.len(),
{
    let ins = insert_member(s, f);
    let ns = member_names(s);
    if s.len() == 0 {
        assert(ins.drop_first().len() == 0);
        assert forall|k: Seq<char>| #[trigger] first_value(ins, k) == (match first_value(s, k) {
            Some(v) => Some(v),
            None => if k == f.0 {
                Some(f.1)
            } else {
                None
            },
        }) by {
            reveal_with_fuel(first_value, 2);
        }
    } else if s[0].0 == f.0 {
        assert forall|k: Seq<char>| #[trigger] first_value(ins, k) == (match first_value(s, k) {
            Some(v) => Some(v),
            None => if k == f.0 {
                Some(f.1)
            } else {
                None
            },
        }) by {}
    } else if lex_lt(f.0, s[0].0) {
        lemma_names_cons(f, s);
        assert(ins.drop_first() =~= s);
        let ni = member_names(ins);
        assert forall|j: int| 0 <= j < ns.len() implies lex_lt(f.0, #[trigger] ns[j]) by {
            if j > 0 {
                lemma_lex_transitive(f.0, ns[0], ns[j]);
            }
        }
        assert forall|i: int, j: int| 0 <= i < j < ni.len() implies lex_lt(
            #[trigger] ni[i],
            #[trigger] ni[j],
        ) by {
            if i == 0 {
                assert(ni[j] == ns[j - 1]);
            } else {
                assert(ni[i] == ns[i - 1] && ni[j] == ns[j - 1]);
            }
        }
        assert(first_value(s, f.0) is None) by {
            lemma_first_value_contains(s, f.0);
            if ns.contains(f.0) {
                let j = choose|j: int| 0 <= j < ns.len() && ns[j] == f.0;
                lemma_lex_irreflexive(f.0);
            }
        }
        assert forall|k: Seq<char>| #[trigger] first_value(ins, k) == (match first_value(s, k) {
            Some(v) => Some(v),
            None => if k == f.0 {
                Some(f.1)
            } else {
                None
            },
        }) by {
            if k != f.0 {
                assert(first_value(ins, k) == first_value(ins.drop_first(), k));
            }
        }
    } else {
        let t = s.drop_first();
        let it = insert_member(t, f);
        let nt = member_names(t);
        assert(strictly_sorted(nt)) by {
            assert forall|i: int, j: int| 0 <= i < j < nt.len() implies lex_lt(
                #[trigger] nt[i],
                #[trigger] nt[j],
            ) by {
                assert(nt[i] == ns[i + 1] && nt[j] == ns[j + 1]);
            }
        }
        lemma_insert_member(t, f);
        lemma_lex_total(f.0, s[0].0);
        assert(lex_lt(s[0].0, f.0));
        lemma_names_cons(s[0], it);
        let ni = member_names(ins);
        let nit = member_names(it);
        assert(ns[0] == s[0].0);
        assert forall|j: int| 0 <= j < nit.len() implies lex_lt(s[0].0, #[trigger] nit[j]) by {
            let n = nit[j];
            assert(nit.contains(n));
            assert(first_value(it, n) == (match first_value(t, n) {
                Some(v) => Some(v),
                None => if n == f.0 {
                    Some(f.1)
                } else {
                    None
                },
            }));
            lemma_first_value_contains(it, n);
            lemma_first_value_contains(t, n);
            if n != f.0 {
                let m = choose|m: int| 0 <= m < nt.len() && nt[m] == n;
                assert(ns[m + 1] == n);
                assert(lex_lt(ns[0], ns[m + 1]));
            }
        }
        assert forall|i: int, j: int| 0 <= i < j < ni.len() implies lex_lt(
            #[trigger] ni[i],
            #[trigger] ni[j],
        ) by {
            if i == 0 {
                assert(ni[j] == nit[j - 1]);
            } else {
                assert(ni[i] == nit[i - 1] && ni[j] == nit[j - 1]);
            }
        }
        assert(ins.drop_first() =~= it);
        assert(s =~= seq![s[0]] + t);
        assert forall|k: Seq<char>| #[trigger] first_value(ins, k) == (match first_value(s, k) {
            Some(v) => Some(v),
            None => if k == f.0 {
                Some(f.1)
            } else {
                None
            },
        }) by {
            if k != s[0].0 {
                assert(first_value(ins, k) == first_value(it, k));
                assert(first_value(s, k) == first_value(t, k));
            }
        }
    }
}

proof fn lemma_canonical_members(fs: Seq<(Seq<char>, Json)>)
    ensures
        strictly_sorted(member_names(canonical_members(fs))),
        forall|k: Seq<char>| #[trigger]
            first_value(canonical_members(fs), k) == (match first_value(fs, k) {
                Some(v) => Some(canonical_value(v)),
                None => None,
            }),
    decreases fs.len(),
{
    if fs.len() > 0 {
        let init = fs.subrange(0, fs.len() - 1);
        let last = fs[fs.len() - 1];
        lemma_canonical_members(init);
        lemma_insert_member(canonical_members(init), (last.0, canonical_value(last.1)));
        assert forall|k: Seq<char>| #[trigger]
            first_value(canonical_members(fs), k) == (match first_value(fs, k) {
                Some(v) => Some(canonical_value(v)),
                None => None,
            }) by {
            lemma_first_value_init(fs, k);
        }
    } else {
        assert(member_names(canonical_members(fs)).len() == 0);
    }
}

proof fn lemma_canonical_items(items: Seq<Json>)
    ensures
        canonical_items(items).len() == items.len(),
        forall|i: int|
            0 <= i < items.len() ==> #[trigger] canonical_items(items)[i] == canonical_value(items[i]),
    decreases items.len(),
{
    if items.len() > 0 {
        let init = items.subrange(0, items.len() - 1);
        lemma_canonical_items(init);
        assert forall|i: int| 0 <= i < items.len() implies #[trigger] canonical_items(items)[i]
            == canonical_value(items[i]) by {
            if i < items.len() - 1 {
                assert(init[i] == items[i]);
            }
        }
    }
}

/// Members ordered strictly by name are fixed by what each name holds.
proof fn lemma_sorted_members_unique(s1: Seq<(Seq<char>, Json)>, s2: Seq<(Seq<char>, Json)>)
    requires
        strictly_sorted(member_names(s1)),
        strictly_sorted(member_names(s2)),
        forall|k: Seq<char>| #[trigger] first_value(s1, k) == first_value(s2, k),
    ensures
        s1 == s2,
    decreases s1.len(),
{
    let n1 = member_names(s1);
    let n2 = member_names(s2);
    if s1.len() == 0 {
        if s2.len() > 0 {
            assert(first_value(s2, s2[0].0) is Some);
            assert(first_value(s1, s2[0].0) is None);
        }
        assert(s1 =~= s2);
    } else {
        if s2.len() == 0 {
            assert(first_value(s1, s1[0].0) is Some);
        }
        let a = s1[0].0;
        let b = s2[0].0;
        if a != b {
            assert(first_value(s1, a) is Some);
            lemma_first_value_contains(s2, a);
            let m = choose|m: int| 0 <= m < n2.len() && n2[m] == a;
            assert(m > 0);
            assert(lex_lt(n2[0], n2[m]));
            assert(first_value(s2, b) is Some);
            lemma_first_value_contains(s1, b);
            let m1 = choose|m1: int| 0 <= m1 < n1.len() && n1[m1] == b;
            assert(m1 > 0);
            assert(lex_lt(n1[0], n1[m1]));
            lemma_lex_transitive(a, b, a);
            lemma_lex_irreflexive(a);
        }
        assert(first_value(s1, a) == Some(s1[0].1));
        assert(first_value(s2, a) == Some(s2[0].1));
        let t1 = s1.drop_first();
        let t2 = s2.drop_first();
        let m1 = member_names(t1);
        let m2 = member_names(t2);
        assert forall|i: int, j: int| 0 <= i < j < m1.len() implies lex_lt(
            #[trigger] m1[i],
            #[trigger] m1[j],
        ) by {
            assert(m1[i] == n1[i + 1] && m1[j] == n1[j + 1]);
        }
        assert forall|i: int, j: int| 0 <= i < j < m2.len() implies lex_lt(
            #[trigger] m2[i],
            #[trigger] m2[j],
        ) by {
            assert(m2[i] == n2[i + 1] && m2[j] == n2[j + 1]);
        }
        assert forall|k: Seq<char>| #[trigger] first_value(t1, k) == first_value(t2, k) by {
            if k == a {
                lemma_first_value_contains(t1, k);
                lemma_first_value_contains(t2, k);
                if m1.contains(k) {
                    let i = choose|i: int| 0 <= i < m1.len() && m1[i] == k;
                    assert(n1[i + 1] == k);
                    assert(n1[0] == a);
                    assert(lex_lt(n1[0], n1[i + 1]));
                    lemma_lex_irreflexive(a);
                }
                if m2.contains(k) {
                    let i = choose|i: int| 0 <= i < m2.len() && m2[i] == k;
                    assert(n2[i + 1] == k);
                    assert(n2[0] == b);
                    assert(lex_lt(n2[0], n2[i + 1]));
                    lemma_lex_irreflexive(a);
                }
            } else {
                assert(first_value(s1, k) == first_value(t1, k));
                assert(first_value(s2, k) == first_value(t2, k));
            }
        }
        lemma_sorted_members_unique(t1, t2);
        assert(s1 =~= seq![s1[0]] + t1);
        assert(s2 =~= seq![s2[0]] + t2);
    }
}

/// In the canonical form of a document, the members of every object come
/// strictly ordered by name, and each name holds the canonical form of
/// the value that the name first held.
pub proof fn law_canonical_members_are_sorted(fs: Seq<(Seq<char>, Json)>)
    ensures
        strictly_sorted(member_names(canonical_members(fs))),
        forall|k: Seq<char>| #[trigger]
            first_value(canonical_members(fs), k) == (match first_value(fs, k) {
                Some(v) => Some(canonical_value(v)),
                None => None,
            }),
{
    lemma_canonical_members(fs);
}

/// The canonical form of an array keeps its items in their order.
pub proof fn law_canonical_keeps_array_order(items: Seq<Json>)
    ensures
        canonical_value(Json::Array(items)) == Json::Array(
            Seq::new(items.len(), |i: int| canonical_value(items[i])),
        ),
{
    lemma_canonical_items(items);
    assert(canonical_items(items) =~= Seq::new(items.len(), |i: int| canonical_value(items[i])));
}

/// Documents that differ only in the order of object members have one
/// canonical form.
pub proof fn law_canonical_ignores_member_order(a: Json, b: Json)
    requires
        same_up_to_member_order(a, b),
    ensures
        canonical_value(a) == canonical_value(b),
    decreases a,
{
    match a {
        Json::Array(xs) => {
            let ys = b->Array_0;
            lemma_canonical_items(xs);
            lemma_canonical_items(ys);
            assert forall|i: int| 0 <= i < xs.len() implies canonical_value(xs[i]) == canonical_value(
                ys[i],
            ) by {
                assert(same_up_to_member_order(xs[i], ys[i]));
                law_canonical_ignores_member_order(xs[i], ys[i]);
            }
            assert(canonical_items(xs) =~= canonical_items(ys));
        },
        Json::Object(fa) => {
            let fb = b->Object_0;
            lemma_canonical_members(fa);
            lemma_canonical_members(fb);
            let ca = canonical_members(fa);
            let cb = canonical_members(fb);
            assert forall|k: Seq<char>| #[trigger] first_value(ca, k) == first_value(cb, k) by {
                lemma_first_value_contains(fa, k);
                lemma_first_value_contains(fb, k);
                let na = member_names(fa);
                let nb = member_names(fb);
                if na.contains(k) {
                    assert(nb.contains(k));
                    let i = choose|i: int| 0 <= i < na.len() && na[i] == k;
                    let j = choose|j: int| 0 <= j < nb.len() && nb[j] == k;
                    assert(fa[i].0 == k && fb[j].0 == k);
                    lemma_first_value_at(fa, i);
                    lemma_first_value_at(fb, j);
                    assert(same_up_to_member_order(fa[i].1, fb[j].1));
                    law_canonical_ignores_member_order(fa[i].1, fb[j].1);
                }
            }
            lemma_sorted_members_unique(ca, cb);
        },
        _ => {},
    }
}

// ---------------------------------------------------------------------
// Canonicalization, executable
// ---------------------------------------------------------------------
/// Adds a member to members ordered by name; a name already there keeps
/// its member.
fn insert_member_exec(out: &mut Vec<(String, JsonValue)>, name: String, value: JsonValue)
    ensures
        model_fields(final(out)@) == insert_member(model_fields(old(out)@), (name@, value@)),
{
    let ghost s = model_fields(out@);
    let ghost f = (name@, value@);
    proof {
        lemma_model_fields_all(out@);
        assert(s.subrange(0, s.len() as int) =~= s);
        assert(s.subrange(0, 0) + s =~= s);
    }
    let nc = chars_of(name.as_str());
    let mut p: usize = 0;
    while p < out.len()
        invariant
            0 <= p <= out.len(),
            s == model_fields(out@),
            s.len() == out@.len(),
            forall|m: int| 0 <= m < out@.len() ==> #[trigger] s[m] == (out@[m].0@, model(out@[m].1)),
            nc@ == name@,
            f == (name@, value@),
            s == model_fields(old(out)@),
            insert_member(s, f) == s.subrange(0, p as int) + insert_member(
                s.subrange(p as int, s.len() as int),
                f,
            ),
        decreases out.len() - p,
    {
        let pc = chars_of(out[p].0.as_str());
        let ghost rest = s.subrange(p as int, s.len() as int);
        proof {
            assert(rest[0] == s[p as int]);
            assert(rest.drop_first() =~= s.subrange(p + 1, s.len() as int));
        }
        if seq_eq(&pc, &nc) {
            proof {
                assert(pc@ == out@[p as int].0@);
                assert(rest[0].0 == f.0);
                assert(insert_member(rest, f) == rest);
                assert(s.subrange(0, p as int) + rest =~= s);
            }
            return;
        }
        if lex_lt_vec(&nc, &pc) {
            proof {
                assert(pc@ == out@[p as int].0@);
                assert(rest[0].0 != f.0);
                assert(lex_lt(f.0, rest[0].0));
                assert(insert_member(rest, f) == seq![f] + rest);
            }
            let ghost before = out@;
            out.insert(p, (name, value));
            proof {
                assert(s.subrange(0, p as int) + (seq![f] + rest) =~= s.insert(p as int, f));
                assert forall|m: int| 0 <= m < out@.len() implies (out@[m].0@, model(out@[m].1))
                    == s.insert(p as int, f)[m] by {
                    if m < p {
                        assert(out@[m] == before[m]);
                    } else if m > p {
                        assert(out@[m] == before[m - 1]);
                    }
                }
                lemma_model_fields_ext(out@, s.insert(p as int, f));
            }
            return;
        }
        proof {
            assert(s.subrange(0, p as int) + (seq![s[p as int]] + insert_member(rest.drop_first(), f))
                =~= s.subrange(0, p + 1) + insert_member(rest.drop_first(), f));
        }
        p += 1;
    }
    let ghost before = out@;
    out.push((name, value));
    proof {
        assert(s.subrange(p as int, s.len() as int).len() == 0);
        assert(s.subrange(0, p as int) + seq![f] =~= s.push(f));
        assert forall|m: int| 0 <= m < out@.len() implies (out@[m].0@, model(out@[m].1)) == s.push(
            f,
        )[m] by {
            if m < p {
                assert(out@[m] == before[m]);
            }
        }
        lemma_model_fields_ext(out@, s.push(f));
    }
}

/// The canonical form of a document: object members sorted by name,
/// arrays and everything else as they are.
#[verifier::loop_isolation(false)]
pub fn canonicalize_json(v: &JsonValue) -> (r: JsonValue)
    ensures
        r@ == canonical_value(v@),
    decreases *v,
{
    match v {
        JsonValue::Array(items) => {
            let ghost ms = model_seq(items@);
            proof {
                lemma_model_seq_all(items@);
                assert(ms.subrange(0, 0) =~= Seq::<Json>::empty());
            }
            let mut out: Vec<JsonValue> = Vec::new();
            proof {
                lemma_model_seq_ext(out@, Seq::empty());
            }
            let mut i: usize = 0;
            while i < items.len()
                invariant
                    0 <= i <= items.len(),
                    model_seq(out@) == canonical_items(ms.subrange(0, i as int)),
                decreases items.len() - i,
            {
                proof {
                    assert(decreases_to!(*v => items@[i as int]));
                }
                let child = canonicalize_json(&items[i]);
                let ghost before = out@;
                out.push(child);
                proof {
                    let sub = ms.subrange(0, i + 1);
                    assert(sub.subrange(0, sub.len() - 1) =~= ms.subrange(0, i as int));
                    assert(sub[sub.len() - 1] == ms[i as int]);
                    lemma_model_seq_all(before);
                    lemma_model_seq_all(out@);
                    assert(model_seq(out@) =~= model_seq(before).push(child@));
                }
                i += 1;
            }
            proof {
                assert(ms.subrange(0, ms.len() as int) =~= ms);
            }
            JsonValue::Array(out)
        },
        JsonValue::Object(fields) => {
            let ghost mf = model_fields(fields@);
            proof {
                lemma_model_fields_all(fields@);
                assert(mf.subrange(0, 0) =~= Seq::<(Seq<char>, Json)>::empty());
            }
            let mut out: Vec<(String, JsonValue)> = Vec::new();
            proof {
                lemma_model_fields_ext(out@, Seq::empty());
            }
            let mut i: usize = 0;
            while i < fields.len()
                invariant
                    0 <= i <= fields.len(),
                    model_fields(out@) == canonical_members(mf.subrange(0, i as int)),
                decreases fields.len() - i,
            {
                proof {
                    assert(decreases_to!(*v => fields@[i as int].1));
                }
                let child = canonicalize_json(&fields[i].1);
                let name = fields[i].0.clone();
                insert_member_exec(&mut out, name, child);
                proof {
                    let sub = mf.subrange(0, i + 1);
                    assert(sub.subrange(0, sub.len() - 1) =~= mf.subrange(0, i as int));
                    assert(sub[sub.len() - 1] == mf[i as int]);
                }
                i += 1;
            }
            proof {
                assert(mf.subrange(0, mf.len() as int) =~= mf);
            }
            JsonValue::Object(out)
        },
        _ => v.deep_clone(),
    }
}

// ---------------------------------------------------------------------
// Cache key
// ---------------------------------------------------------------------
/// The text of a block cache key: the path, the upstream base URL and the
/// SHA-256 (in hex) of the canonical body's compact JSON, one per line.
pub open spec fn block_key_text(path: Seq<char>, base: Seq<char>, canonical: Json) -> Seq<char> {
    path + "\n"@ + base + "\n"@ + hex_lower(sha256_digest(utf8(json_compact_text(canonical))))
}

/// What identifies a request for the block cache.
#[derive(Clone, Debug, PartialEq, Eq, Hash)]
pub struct UpstreamBlockCacheKey(String);

impl View for UpstreamBlockCacheKey {
    type V = Seq<char>;

    closed spec fn view(&self) -> Seq<char> {
        self.0@
    }
}

impl UpstreamBlockCacheKey {
    /// The key of a request: its path, its upstream and its canonical body.
    pub fn new(path: &str, upstream_base_url: &str, request_body: &JsonValue) -> (r: Self)
        ensures
            r@ == block_key_text(path@, upstream_base_url@, canonical_value(request_body@)),
    {
        let canonical = canonicalize_json(request_body);
        let body_text = to_json_string(&canonical);
        let body_hash = sha256_hex_text(body_text.as_str());
        let a = concat(path, "\n");
        let b = concat(a.as_str(), upstream_base_url);
        let c = concat(b.as_str(), "\n");
        let d = concat(c.as_str(), body_hash.as_str());
        UpstreamBlockCacheKey(d)
    }

    /// The key's text.
    pub fn as_str(&self) -> (r: &str)
        ensures
            r@ == self@,
    {
        self.0.as_str()
    }
}

/// Two request bodies that differ only in the order of object members get
/// one key for the same path and upstream.
pub proof fn law_block_key_ignores_member_order(path: Seq<char>, base: Seq<char>, a: Json, b: Json)
    requires
        same_up_to_member_order(a, b),
    ensures
        block_key_text(path, base, canonical_value(a)) == block_key_text(
            path,
            base,
            canonical_value(b),
        ),
{
    law_canonical_ignores_member_order(a, b);
}


// ---------------------------------------------------------------------
// The cache: refusals kept for a while, least recently used evicted
// ---------------------------------------------------------------------
/// A stored refusal: status, content type, body, reason, and the instant
/// (in milliseconds) at which it expires.
pub type StoredBlock = (u16, String, Vec<u8>, String, u64);

/// The plain value of a stored refusal.
pub type StoredBlockView = (u16, Seq<char>, Seq<u8>, Seq<char>, u64);

pub open spec fn stored_view(b: StoredBlock) -> StoredBlockView {
    (b.0, b.1@, b.2@, b.3@, b.4)
}



/// The entries of an `LruCache` of refusals, most recently used first:
/// each key's text with its stored refusal.
pub uninterp spec fn block_lru_entries(c: lru::LruCache<String, StoredBlock>) -> Seq<(Seq<char>, StoredBlockView)>;

/// The capacity an `LruCache` of refusals was made with.
pub uninterp spec fn block_lru_cap(c: lru::LruCache<String, StoredBlock>) -> nat;



/// The test that an entry is live at `now`.
pub open spec fn is_live(now: u64) -> spec_fn((Seq<char>, StoredBlockView)) -> bool {
    |e: (Seq<char>, StoredBlockView)| now < e.1.4
}



/// The entries that have not expired at `now`.
pub open spec fn live_entries(s: Seq<(Seq<char>, StoredBlockView)>, now: u64) -> Seq<(Seq<char>, StoredBlockView)> {
    keep(s, is_live(now))
}

/// Calls `LruCache::new` with the capacity (non-zero, so
/// `NonZeroUsize::new` gives `Some`): an empty cache of that capacity.
#[verifier::external_body]
fn lru_new(cap: usize) -> (r: lru::LruCache<String, StoredBlock>)
    requires
        cap > 0,
    ensures
        block_lru_entries(r) == Seq::<(Seq<char>, StoredBlockView)>::empty(),
        block_lru_cap(r) == cap,
{
    lru::LruCache::new(std::num::NonZeroUsize::new(cap).unwrap())
}

/// Calls `LruCache::get` and clones the value found: a present key's entry
/// moves to the front (`detach` then `attach`); an absent key changes
/// nothing.
#[verifier::external_body]
fn lru_get(c: &mut lru::LruCache<String, StoredBlock>, key: &str) -> (r: Option<StoredBlock>)
    ensures
        block_lru_cap(*final(c)) == block_lru_cap(*old(c)),
        match r {
            Some(v) => {
                &&& block_lru_entries(*old(c)).contains((key@, stored_view(v)))
                &&& block_lru_entries(*final(c)) == seq![(key@, stored_view(v))] + without_key(
                    block_lru_entries(*old(c)),
                    key@,
                )
            },
            None => {
                &&& !has_key(block_lru_entries(*old(c)), key@)
                &&& block_lru_entries(*final(c)) == block_lru_entries(*old(c))
            },
        },
{
    c.get(key).cloned()
}

/// Calls `LruCache::put`: the entry goes in front, replacing the key's old
/// entry, or else evicting the least recently used one when the cache
/// holds its capacity (`replace_or_create_node`).
#[verifier::external_body]
fn lru_put(c: &mut lru::LruCache<String, StoredBlock>, key: String, value: StoredBlock)
    ensures
        block_lru_cap(*final(c)) == block_lru_cap(*old(c)),
        block_lru_entries(*final(c)) == put_entry(
            block_lru_entries(*old(c)),
            key@,
            stored_view(value),
            block_lru_cap(*old(c)),
        ),
{
    c.put(key, value);
}

/// Calls `LruCache::pop`: the key's entry, if any, leaves.
#[verifier::external_body]
fn lru_pop(c: &mut lru::LruCache<String, StoredBlock>, key: &str)
    ensures
        block_lru_cap(*final(c)) == block_lru_cap(*old(c)),
        block_lru_entries(*final(c)) == without_key(block_lru_entries(*old(c)), key@),
{
    c.pop(key);
}

/// Calls `LruCache::iter` (most recently used first) and hands out each
/// entry's key and expiry instant.
#[verifier::external_body]
fn lru_expiries(c: &lru::LruCache<String, StoredBlock>) -> (r: Vec<(String, u64)>)
    ensures
        r@.len() == block_lru_entries(*c).len(),
        forall|i: int|
            0 <= i < r@.len() ==> #[trigger] r@[i].0@ == block_lru_entries(*c)[i].0 && r@[i].1
                == block_lru_entries(*c)[i].1.4,
{
    c.iter().map(|(k, v)| (k.clone(), v.4)).collect()
}











/// A refusal to keep, as the upstream gave it.
pub struct CachedBlockResponse {
    pub status: u16,
    pub content_type: String,
    pub body: Vec<u8>,
    pub reason: String,
}

/// A refusal found in the cache.
pub struct BlockCacheHit {
    pub status: u16,
    pub content_type: String,
    pub body: Vec<u8>,
    pub reason: String,
}

/// The parts of a hit: status, content type, body and reason.
pub open spec fn hit_view(h: BlockCacheHit) -> (u16, Seq<char>, Seq<u8>, Seq<char>) {
    (h.status, h.content_type@, h.body@, h.reason@)
}

/// Refusals remembered for a while (`ttl_ms` milliseconds), at most a
/// fixed number of them, the least recently used leaving first.
pub struct UpstreamBlockCache {
    ttl_ms: u64,
    entries: lru::LruCache<String, StoredBlock>,
}

impl UpstreamBlockCache {
    /// How long a refusal is kept, in milliseconds.
    pub closed spec fn ttl(&self) -> u64 {
        self.ttl_ms
    }

    /// How many refusals the cache holds at most.
    pub closed spec fn capacity(&self) -> nat {
        block_lru_cap(self.entries)
    }

    /// The refusals held, most recently used first.
    pub closed spec fn stored(&self) -> Seq<(Seq<char>, StoredBlockView)> {
        block_lru_entries(self.entries)
    }

    pub open spec fn wf(&self) -> bool {
        &&& self.ttl() > 0
        &&& self.capacity() > 0
        &&& entries_ok(self.stored(), self.capacity())
    }

    /// A cache keeping refusals for `ttl_ms` milliseconds, at most
    /// `max_entries` of them; none when either is zero.
    pub fn new(ttl_ms: u64, max_entries: usize) -> (r: Option<Self>)
        ensures
            match r {
                Some(c) => {
                    &&& ttl_ms > 0 && max_entries > 0
                    &&& c.wf()
                    &&& c.ttl() == ttl_ms
                    &&& c.capacity() == max_entries
                    &&& c.stored() == Seq::<(Seq<char>, StoredBlockView)>::empty()
                },
                None => ttl_ms == 0 || max_entries == 0,
            },
    {
        if ttl_ms == 0 || max_entries == 0 {
            return None;
        }
        let entries = lru_new(max_entries);
        Some(UpstreamBlockCache { ttl_ms, entries })
    }

    /// The refusal held for a key at `now_ms`: an expired one is dropped
    /// and not returned; a live one becomes the most recently used.
    pub fn get(&mut self, key: &UpstreamBlockCacheKey, now_ms: u64) -> (r: Option<BlockCacheHit>)
        requires
            old(self).wf(),
        ensures
            final(self).wf(),
            final(self).ttl() == old(self).ttl(),
            final(self).capacity() == old(self).capacity(),
            match block_lookup(old(self).stored(), key@, now_ms) {
                Some(v) => r is Some && hit_view(r->0) == (v.0, v.1, v.2, v.3),
                None => r is None,
            },
            match first_value(old(self).stored(), key@) {
                None => r is None && final(self).stored() == old(self).stored(),
                Some(v) => if v.4 <= now_ms {
                    &&& r is None
                    &&& final(self).stored() == without_key(old(self).stored(), key@)
                } else {
                    &&& r is Some
                    &&& hit_view(r->0) == (v.0, v.1, v.2, v.3)
                    &&& final(self).stored() == seq![(key@, v)] + without_key(
                        old(self).stored(),
                        key@,
                    )
                },
            },
    {
        let ghost s0 = self.stored();
        let found = lru_get(&mut self.entries, key.as_str());
        match found {
            None => {
                proof {
                    lemma_first_value_absent(s0, key@);
                }
                None
            },
            Some(stored) => {
                let ghost v = stored_view(stored);
                proof {
                    lemma_first_value_distinct(s0, key@, v);
                    lemma_without_key_drops(s0, key@);
                    lemma_keep_distinct(s0, key_differs(key@));
                    lemma_has_key_contains(s0, key@);
                }
                if stored.4 <= now_ms {
                    let ghost s1 = self.stored();
                    lru_pop(&mut self.entries, key.as_str());
                    proof {
                        let p = key_differs(key@);
                        lemma_keep_cons((key@, v), without_key(s0, key@), p);
                        lemma_keep_keep(s0, p, p);
                        lemma_keep_ext(s0, |x: (Seq<char>, StoredBlockView)| p(x) && p(x), p);
                        lemma_keep_distinct(s0, p);
                    }
                    None
                } else {
                    proof {
                        let rest = without_key(s0, key@);
                        let r1 = self.stored();
                        assert forall|i: int, j: int| 0 <= i < j < r1.len() implies #[trigger] r1[i].0
                            != #[trigger] r1[j].0 by {
                            if i == 0 {
                                assert(r1[j] == rest[j - 1]);
                                if rest[j - 1].0 == key@ {
                                    assert(has_key(rest, key@));
                                }
                            } else {
                                assert(r1[i] == rest[i - 1] && r1[j] == rest[j - 1]);
                            }
                        }
                    }
                    Some(
                        BlockCacheHit {
                            status: stored.0,
                            content_type: stored.1,
                            body: stored.2,
                            reason: stored.3,
                        },
                    )
                }
            },
        }
    }

    /// Keeps a refusal under a key from `now_ms` for the cache's TTL, after
    /// dropping every expired refusal.
    pub fn insert(&mut self, key: UpstreamBlockCacheKey, response: CachedBlockResponse, now_ms: u64)
        requires
            old(self).wf(),
            now_ms + old(self).ttl() <= u64::MAX,
        ensures
            final(self).wf(),
            final(self).ttl() == old(self).ttl(),
            final(self).capacity() == old(self).capacity(),
            final(self).stored() == put_entry(
                live_entries(old(self).stored(), now_ms),
                key@,
                (
                    response.status,
                    response.content_type@,
                    response.body@,
                    response.reason@,
                    (now_ms + old(self).ttl()) as u64,
                ),
                old(self).capacity(),
            ),
    {
        prune_expired_entries(&mut self.entries, now_ms);
        let ghost pruned = self.stored();
        let expires_at = now_ms + self.ttl_ms;
        let UpstreamBlockCacheKey(text) = key;
        let stored: StoredBlock = (
            response.status,
            response.content_type,
            response.body,
            response.reason,
            expires_at,
        );
        lru_put(&mut self.entries, text, stored);
        proof {
            lemma_put_entry_ok(pruned, text@, stored_view(stored), self.capacity());
        }
    }
}

/// Drops every entry that has expired at `now`.
#[verifier::loop_isolation(false)]
fn prune_expired_entries(entries: &mut lru::LruCache<String, StoredBlock>, now: u64)
    requires
        distinct_names(block_lru_entries(*old(entries))),
        block_lru_entries(*old(entries)).len() <= block_lru_cap(*old(entries)),
    ensures
        block_lru_cap(*final(entries)) == block_lru_cap(*old(entries)),
        block_lru_entries(*final(entries)) == live_entries(block_lru_entries(*old(entries)), now),
        distinct_names(block_lru_entries(*final(entries))),
        block_lru_entries(*final(entries)).len() <= block_lru_cap(*final(entries)),
{
    let ghost o = block_lru_entries(*entries);
    let ghost cap = block_lru_cap(*entries);
    let listed = lru_expiries(entries);
    let ghost ls = listed@;
    proof {
        lemma_keep_all(o, |e: (Seq<char>, StoredBlockView)| !popped(ls, 0, now, e.0));
    }
    assert(ls.len() == o.len());
    assert(forall|m: int| 0 <= m < ls.len() ==> #[trigger] ls[m].0@ == o[m].0 && ls[m].1 == o[m].1.4);
    let mut i: usize = 0;
    while i < listed.len()
        invariant
            0 <= i <= listed.len(),
            block_lru_cap(*entries) == cap,
            block_lru_entries(*entries) == keep(
                o,
                |e: (Seq<char>, StoredBlockView)| !popped(ls, i as int, now, e.0),
            ),
        decreases listed.len() - i,
    {
        let ghost before = block_lru_entries(*entries);
        let ghost pi = |e: (Seq<char>, StoredBlockView)| !popped(ls, i as int, now, e.0);
        let ghost pn = |e: (Seq<char>, StoredBlockView)| !popped(ls, i + 1, now, e.0);
        if listed[i].1 <= now {
            lru_pop(entries, listed[i].0.as_str());
            proof {
                let q = |e: (Seq<char>, StoredBlockView)| e.0 != ls[i as int].0@;
                lemma_keep_keep(o, pi, q);
                assert forall|m: int| 0 <= m < o.len() implies (|x: (Seq<char>, StoredBlockView)|
                    pi(x) && q(x))(#[trigger] o[m]) == pn(o[m]) by {
                    if popped(ls, i + 1, now, o[m].0) && !popped(ls, i as int, now, o[m].0) {
                        let j = choose|j: int|
                            0 <= j < i + 1 && #[trigger] ls[j].0@ == o[m].0 && ls[j].1 <= now;
                        assert(j == i);
                    }
                    if popped(ls, i as int, now, o[m].0) {
                        let j = choose|j: int|
                            0 <= j < i && #[trigger] ls[j].0@ == o[m].0 && ls[j].1 <= now;
                        assert(popped(ls, i + 1, now, o[m].0));
                    }
                    if o[m].0 == ls[i as int].0@ {
                        assert(popped(ls, i + 1, now, o[m].0));
                    }
                }
                lemma_keep_ext(o, |x: (Seq<char>, StoredBlockView)| pi(x) && q(x), pn);
            }
        } else {
            proof {
                assert forall|m: int| 0 <= m < o.len() implies pi(#[trigger] o[m]) == pn(o[m]) by {
                    if popped(ls, i + 1, now, o[m].0) {
                        let j = choose|j: int|
                            0 <= j < i + 1 && #[trigger] ls[j].0@ == o[m].0 && ls[j].1 <= now;
                        assert(j != i);
                    }
                }
                lemma_keep_ext(o, pi, pn);
            }
        }
        i += 1;
    }
    proof {
        let pend = |e: (Seq<char>, StoredBlockView)| !popped(ls, ls.len() as int, now, e.0);
        let live = is_live(now);
        assert forall|m: int| 0 <= m < o.len() implies pend(#[trigger] o[m]) == live(o[m]) by {
            if popped(ls, ls.len() as int, now, o[m].0) {
                let j = choose|j: int|
                    0 <= j < ls.len() && #[trigger] ls[j].0@ == o[m].0 && ls[j].1 <= now;
                if j != m {
                    if j < m {
                        assert(o[j].0 != o[m].0);
                    } else {
                        assert(o[m].0 != o[j].0);
                    }
                }
            }
            if !live(o[m]) {
                assert(ls[m].0@ == o[m].0);
                assert(popped(ls, ls.len() as int, now, o[m].0));
            }
        }
        lemma_keep_ext(o, pend, live);
        lemma_keep_distinct(o, live);
        lemma_keep_contains(o, live, arbitrary());
    }
}

/// Some listed entry before position `i` has expired at `now` under key `k`.
pub open spec fn popped(ls: Seq<(String, u64)>, i: int, now: u64, k: Seq<char>) -> bool {
    exists|j: int| 0 <= j < i && #[trigger] ls[j].0@ == k && ls[j].1 <= now
}

/// What a lookup at `now` answers for a key: the refusal held for it, if
/// it has not expired.
pub open spec fn block_lookup(s: Seq<(Seq<char>, StoredBlockView)>, k: Seq<char>, now: u64) -> Option<StoredBlockView> {
    match first_value(s, k) {
        Some(v) => if now < v.4 {
            Some(v)
        } else {
            None
        },
        None => None,
    }
}

/// A refusal just kept under a key is what a lookup of that key answers
/// until it expires, and nothing after.
pub proof fn law_block_cache_hit_until_ttl(
    s: Seq<(Seq<char>, StoredBlockView)>,
    cap: nat,
    k: Seq<char>,
    v: StoredBlockView,
    now: u64,
)
    requires
        entries_ok(s, cap),
        cap > 0,
    ensures
        block_lookup(put_entry(s, k, v, cap), k, now) == (if now < v.4 {
            Some(v)
        } else {
            None
        }),
{
    lemma_put_entry_ok(s, k, v, cap);
}

/// A full cache that takes a new key drops its least recently used entry
/// and keeps all others.
pub proof fn law_block_cache_evicts_least_recently_used(
    s: Seq<(Seq<char>, StoredBlockView)>,
    cap: nat,
    k: Seq<char>,
    v: StoredBlockView,
)
    requires
        entries_ok(s, cap),
        cap > 0,
        s.len() == cap,
        !has_key(s, k),
    ensures
        put_entry(s, k, v, cap).len() == cap,
        !has_key(put_entry(s, k, v, cap), s.last().0),
        forall|i: int| 0 <= i < s.len() - 1 ==> put_entry(s, k, v, cap).contains(#[trigger] s[i]),
{
    let r = put_entry(s, k, v, cap);
    if has_key(r, s.last().0) {
        let i = choose|i: int| 0 <= i < r.len() && #[trigger] r[i].0 == s.last().0;
        if i > 0 {
            assert(r[i] == s[i - 1]);
            assert(s[i - 1].0 != s[s.len() - 1].0);
        } else {
            assert(s[s.len() - 1].0 == k);
        }
    }
    assert forall|i: int| 0 <= i < s.len() - 1 implies put_entry(s, k, v, cap).contains(#[trigger] s[i]) by {
        assert(r[i + 1] == s[i]);
    }
}

} // verus!
