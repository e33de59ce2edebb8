//! Rewriting a server-sent event stream: each `data:` line that holds a
//! JSON document is replaced by the rewriter's document; every other line
//! is kept as it is.
use vstd::prelude::*;

use crate::json::{Json, JsonValue};
use crate::json_text::{json_compact_text, json_parse_outcome, parse_json, to_json_string};
use crate::text::{
    chars_of, lemma_split_nonempty, slice_range, split, split_vec, starts_with, starts_with_vec,
    string_of, trim, trim_end_char, trim_end_char_vec, trim_vec, vec_is,
};

verus! {

/// `str::split_inclusive('\n')`: the lines, each with its line feed; no
/// empty piece after a final line feed.
pub open spec fn inclusive_lines(s: Seq<char>) -> Seq<Seq<char>> {
    let p = split(s, '\n');
    let n = p.len();
    p.take(n - 1).map_values(|l: Seq<char>| l.push('\n')) + if p[n - 1].len() > 0 {
        seq![p[n - 1]]
    } else {
        Seq::empty()
    }
}

/// `str::trim_start_matches(pattern)`: every leading copy of the pattern
/// removed.
pub open spec fn trim_start_matches(s: Seq<char>, p: Seq<char>) -> Seq<char>
    decreases s.len(),
{
    if p.len() > 0 && starts_with(s, p) {
        trim_start_matches(s.subrange(p.len() as int, s.len() as int), p)
    } else {
        s
    }
}

/// A line without its line feed and carriage return.
pub open spec fn line_body(l: Seq<char>) -> Seq<char> {
    trim_end_char(trim_end_char(l, '\n'), '\r')
}

/// What follows the body of a line (its line ending).
pub open spec fn line_ending(l: Seq<char>) -> Seq<char> {
    l.subrange(line_body(l).len() as int, l.len() as int)
}

/// The JSON document a `data:` line carries, if it carries one (not blank,
/// not `[DONE]`, and parsing).
pub open spec fn data_payload(l: Seq<char>) -> Option<Json> {
    let b = line_body(l);
    let raw = trim(trim_start_matches(b, "data:"@));
    if starts_with(b, "data:"@) && raw.len() > 0 && raw != "[DONE]"@ {
        match json_parse_outcome(raw) {
            Ok(j) => Some(j),
            Err(_) => None,
        }
    } else {
        None
    }
}

/// What one line becomes: itself, or, for a JSON `data:` line, `data: `
/// and the compact text of a document the rewriter returned for it.
pub open spec fn segment_ok<F: FnMut(JsonValue) -> Result<JsonValue, String>>(
    l: Seq<char>,
    seg: Seq<char>,
    f: F,
) -> bool {
    match data_payload(l) {
        None => seg == l,
        Some(j) => exists|v: JsonValue, w: JsonValue|
            #![trigger call_ensures(f, (v,), Ok::<JsonValue, String>(w))]
            v@ == j && call_ensures(f, (v,), Ok::<JsonValue, String>(w)) && seg == "data: "@
                + json_compact_text(w@) + line_ending(l),
    }
}

/// The output is the lines' segments, one after another.
pub open spec fn stream_ok<F: FnMut(JsonValue) -> Result<JsonValue, String>>(
    lines: Seq<Seq<char>>,
    out: Seq<char>,
    f: F,
) -> bool
    decreases lines.len(),
{
    if lines.len() == 0 {
        out.len() == 0
    } else {
        exists|k: int|
            0 <= k <= out.len() && stream_ok(lines.drop_last(), out.take(k), f) && segment_ok(
                lines.last(),
                #[trigger] out.skip(k),
                f,
            )
    }
}

pub proof fn lemma_trim_end_char_len(s: Seq<char>, c: char)
    ensures
        trim_end_char(s, c).len() <= s.len(),
    decreases s.len(),
{
    if s.len() > 0 && s.last() == c {
        lemma_trim_end_char_len(s.drop_last(), c);
    }
}

fn inclusive_lines_exec(text: &str) -> (r: Vec<Vec<char>>)
    ensures
        r@.len() == inclusive_lines(text@).len(),
        forall|k: int| 0 <= k < r@.len() ==> #[trigger] r@[k]@ == inclusive_lines(text@)[k],
{
    let v = chars_of(text);
    let p = split_vec(&v, '\n');
    proof {
        lemma_split_nonempty(text@, '\n');
    }
    let ghost sp = split(text@, '\n');
    let n = p.len();
    let mut out: Vec<Vec<char>> = Vec::new();
    let mut i: usize = 0;
    while i + 1 < n
        invariant
            n == p@.len(),
            n == sp.len(),
            n >= 1,
            sp == split(text@, '\n'),
            forall|k: int| 0 <= k < p@.len() ==> #[trigger] p@[k]@ == sp[k],
            0 <= i < n,
            out@.len() == i,
            forall|k: int| 0 <= k < i ==> #[trigger] out@[k]@ == sp[k].push('\n'),
        decreases n - i,
    {
        let mut l = p[i].clone();
        l.push('\n');
        out.push(l);
        i += 1;
    }
    if p[n - 1].len() > 0 {
        out.push(p[n - 1].clone());
    }
    proof {
        let expected = inclusive_lines(text@);
        assert(expected.len() == out@.len());
        assert forall|k: int| 0 <= k < out@.len() implies #[trigger] out@[k]@ == expected[k] by {
            if k < n - 1 {
                assert(sp.take(n - 1)[k] == sp[k]);
            }
        }
    }
    out
}

fn trim_start_matches_vec(s: &Vec<char>, p: &Vec<char>) -> (r: Vec<char>)
    ensures
        r@ == trim_start_matches(s@, p@),
{
    if p.len() == 0 {
        return s.clone();
    }
    let mut cur = s.clone();
    while starts_with_vec(&cur, p)
        invariant
            p@.len() > 0,
            trim_start_matches(s@, p@) == trim_start_matches(cur@, p@),
        decreases cur@.len(),
    {
        cur = slice_range(&cur, p.len(), cur.len());
    }
    cur
}

/// The JSON text a `data:` line carries (not blank, not `[DONE]`), before
/// parsing.
fn data_text(body: &Vec<char>) -> (r: Option<String>)
    ensures
        match r {
            Some(t) => {
                &&& starts_with(body@, "data:"@)
                &&& t@ == trim(trim_start_matches(body@, "data:"@))
                &&& t@.len() > 0
                &&& t@ != "[DONE]"@
            },
            None => !(starts_with(body@, "data:"@) && trim(trim_start_matches(body@, "data:"@)).len()
                > 0 && trim(trim_start_matches(body@, "data:"@)) != "[DONE]"@),
        },
{
    let prefix = chars_of("data:");
    if !starts_with_vec(body, &prefix) {
        return None;
    }
    let stripped = trim_start_matches_vec(body, &prefix);
    let raw = trim_vec(&stripped);
    if raw.len() == 0 || vec_is(&raw, "[DONE]") {
        return None;
    }
    Some(string_of(&raw))
}

/// The line is a JSON `data:` line whose document the rewriter can answer
/// with the error `e`.
pub open spec fn line_fails<F: FnMut(JsonValue) -> Result<JsonValue, String>>(
    l: Seq<char>,
    f: F,
    e: String,
) -> bool {
    match data_payload(l) {
        None => false,
        Some(j) => exists|v: JsonValue|
            #[trigger] call_ensures(f, (v,), Err::<JsonValue, String>(e)) && v@ == j,
    }
}

/// The stream stops at some line with the error `e`: every line before it
/// was rewritten, and the rewriter answered that line's document with `e`.
pub open spec fn stream_fails<F: FnMut(JsonValue) -> Result<JsonValue, String>>(
    lines: Seq<Seq<char>>,
    f: F,
    e: String,
) -> bool {
    exists|i: int, out: Seq<char>|
        #![trigger stream_ok(lines.take(i), out, f)]
        0 <= i < lines.len() && stream_ok(lines.take(i), out, f) && line_fails(lines[i], f, e)
}

/// One line of the stream as the output holds it.
fn rewrite_line<F: FnMut(JsonValue) -> Result<JsonValue, String>>(
    line: &Vec<char>,
    rewriter: &mut F,
) -> (r: Result<Vec<char>, String>)
    requires
        forall|v: JsonValue| call_requires(*old(rewriter), (v,)),
    ensures
        *final(rewriter) == *old(rewriter),
        match r {
            Ok(seg) => segment_ok(line@, seg@, *old(rewriter)),
            Err(e) => line_fails(line@, *old(rewriter), e),
        },
{
    let b1 = trim_end_char_vec(line, '\n');
    let body = trim_end_char_vec(&b1, '\r');
    proof {
        lemma_trim_end_char_len(line@, '\n');
        lemma_trim_end_char_len(b1@, '\r');
    }
    let t = match data_text(&body) {
        Some(t) => t,
        None => {
            return Ok(line.clone());
        },
    };
    let v = match parse_json(t.as_str()) {
        Ok(v) => v,
        Err(_) => {
            return Ok(line.clone());
        },
    };
    let ghost vm = v;
    let w = match rewriter(v) {
        Ok(w) => w,
        Err(e) => {
            proof {
                assert(data_payload(line@) == Some(vm@));
                assert(call_ensures(*old(rewriter), (vm,), Err::<JsonValue, String>(e)));
            }
            return Err(e);
        },
    };
    let text = to_json_string(&w);
    let mut seg = chars_of("data: ");
    let tc = chars_of(text.as_str());
    let ending = slice_range(line, body.len(), line.len());
    let mut k: usize = 0;
    while k < tc.len()
        invariant
            0 <= k <= tc.len(),
            seg@ == "data: "@ + tc@.take(k as int),
        decreases tc.len() - k,
    {
        seg.push(tc[k]);
        assert(tc@.take(k + 1) =~= tc@.take(k as int).push(tc@[k as int]));
        k += 1;
    }
    let mut k2: usize = 0;
    while k2 < ending.len()
        invariant
            0 <= k2 <= ending.len(),
            seg@ == "data: "@ + tc@ + ending@.take(k2 as int),
        decreases ending.len() - k2,
    {
        seg.push(ending[k2]);
        assert(ending@.take(k2 + 1) =~= ending@.take(k2 as int).push(ending@[k2 as int]));
        k2 += 1;
    }
    proof {
        assert(tc@.take(tc@.len() as int) =~= tc@);
        assert(ending@.take(ending@.len() as int) =~= ending@);
        assert(data_payload(line@) == Some(vm@));
    }
    Ok(seg)
}

/// Rewrites the JSON documents of an event stream's `data:` lines with
/// `rewriter`; other lines, and `data:` lines whose text is not JSON, are
/// kept. The first error of the rewriter is returned: where it fails on no
/// line's document the result is `Ok`.
pub fn rewrite_sse_text_with<F: FnMut(JsonValue) -> Result<JsonValue, String>>(
    input: &str,
    rewriter: F,
) -> (r: Result<String, String>)
    requires
        forall|v: JsonValue| call_requires(rewriter, (v,)),
    ensures
        match r {
            Ok(out) => stream_ok(inclusive_lines(input@), out@, rewriter),
            Err(e) => stream_fails(inclusive_lines(input@), rewriter, e),
        },
{
    let lines = inclusive_lines_exec(input);
    let ghost ls = inclusive_lines(input@);
    let mut f = rewriter;
    let mut out: Vec<char> = Vec::new();
    let mut i: usize = 0;
    proof {
        assert(ls.take(0) =~= Seq::<Seq<char>>::empty());
    }
    while i < lines.len()
        invariant
            0 <= i <= lines.len(),
            ls == inclusive_lines(input@),
            lines@.len() == ls.len(),
            forall|k: int| 0 <= k < ls.len() ==> #[trigger] lines@[k]@ == ls[k],
            f == rewriter,
            forall|v: JsonValue| call_requires(rewriter, (v,)),
            stream_ok(ls.take(i as int), out@, rewriter),
        decreases lines.len() - i,
    {
        let ghost l = ls[i as int];
        let ghost before = out@;
        let seg = match rewrite_line(&lines[i], &mut f) {
            Ok(s) => s,
            Err(e) => {
                proof {
                    assert(lines@[i as int]@ == ls[i as int]);
                    assert(line_fails(ls[i as int], rewriter, e));
                    assert(stream_ok(ls.take(i as int), out@, rewriter));
                    assert(stream_fails(ls, rewriter, e));

                }
                return Err(e);
            },
        };
        let mut k: usize = 0;
        while k < seg.len()
            invariant
                0 <= k <= seg.len(),
                out@ == before + seg@.take(k as int),
                f == rewriter,
            decreases seg.len() - k,
        {
            out.push(seg[k]);
            assert(seg@.take(k + 1) =~= seg@.take(k as int).push(seg@[k as int]));
            k += 1;
        }
        proof {
            assert(seg@.take(seg@.len() as int) =~= seg@);
            let t = ls.take(i + 1);
            assert(t.drop_last() =~= ls.take(i as int));
            assert(t.last() == l);
            assert(out@.take(before.len() as int) =~= before);
            assert(out@.skip(before.len() as int) =~= seg@);
            assert(stream_ok(t, out@, rewriter));
        }
        i += 1;
    }
    proof {
        assert(ls.take(ls.len() as int) =~= ls);
    }
    Ok(string_of(&out))
}

} // verus!
