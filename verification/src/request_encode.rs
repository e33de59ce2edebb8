//! The upstream request body, laid out for streaming: JSON text pieces,
//! with each replaced inline image left as a reference to the stored
//! image whose base64 the writer streams in its place.
use vstd::prelude::*;

use crate::json::{lemma_model_fields_all, lemma_model_seq_all, model_fields, model_seq, Json, JsonValue};
use crate::json_text::{json_compact_text, to_json_string};
use crate::request_rewrite::{strip_output, strip_output_fields};
use crate::request_scan::{escape_json_pointer_token, escape_token};
use crate::text::{concat, decimal, own, u64_to_decimal};

verus! {

/// A piece of the encoded body: JSON text, or the base64 of the image of
/// replacement number `i`.
pub enum EncodedPiece {
    Text(String),
    Blob(usize),
}

/// The plain value of a piece.
pub enum PieceView {
    Text(Seq<char>),
    Blob(int),
}

pub open spec fn piece_view(p: EncodedPiece) -> PieceView {
    match p {
        EncodedPiece::Text(t) => PieceView::Text(t@),
        EncodedPiece::Blob(i) => PieceView::Blob(i as int),
    }
}

pub open spec fn pieces_view(s: Seq<EncodedPiece>) -> Seq<PieceView> {
    s.map_values(|p: EncodedPiece| piece_view(p))
}

/// The replacements as plain values: JSON pointer and MIME type.
pub open spec fn replacements_view(r: Seq<(String, String)>) -> Seq<(Seq<char>, Seq<char>)> {
    r.map_values(|e: (String, String)| (e.0@, e.1@))
}

/// The replacement for a JSON pointer: the last one listed for it, as a
/// map built from the list keeps.
pub open spec fn replacement_for(reps: Seq<(Seq<char>, Seq<char>)>, path: Seq<char>) -> Option<int>
    decreases reps.len(),
{
    if reps.len() == 0 {
        None
    } else if reps.last().0 == path {
        Some(reps.len() - 1)
    } else {
        replacement_for(reps.drop_last(), path)
    }
}

/// `"key":` as JSON text.
pub open spec fn member_key_text(key: Seq<char>) -> Seq<char> {
    json_compact_text(Json::Str(key)) + ":"@
}

/// A replaced image: `{"mimeType":<mime>,"data":"` then the base64, then `"}`.
pub open spec fn replacement_pieces(mime: Seq<char>, i: int) -> Seq<PieceView> {
    seq![
        PieceView::Text(
            "{"@ + member_key_text("mimeType"@) + json_compact_text(Json::Str(mime)) + ","@
                + member_key_text("data"@) + "\""@,
        ),
        PieceView::Blob(i),
        PieceView::Text("\"}"@),
    ]
}

/// The pieces of a value found at JSON pointer `path`.
pub open spec fn encode_value(v: Json, path: Seq<char>, reps: Seq<(Seq<char>, Seq<char>)>) -> Seq<PieceView>
    decreases v,
{
    match replacement_for(reps, path) {
        Some(i) => replacement_pieces(reps[i].1, i),
        None => match v {
            Json::Object(fs) => seq![PieceView::Text("{"@)] + encode_members(fs, path, reps) + seq![
                PieceView::Text("}"@),
            ],
            Json::Array(items) => seq![PieceView::Text("["@)] + encode_items(items, path, reps)
                + seq![PieceView::Text("]"@)],
            _ => seq![PieceView::Text(json_compact_text(v))],
        },
    }
}

pub open spec fn encode_members(
    fs: Seq<(Seq<char>, Json)>,
    path: Seq<char>,
    reps: Seq<(Seq<char>, Seq<char>)>,
) -> Seq<PieceView>
    decreases fs,
{
    if fs.len() == 0 {
        Seq::empty()
    } else {
        let init = fs.subrange(0, fs.len() - 1);
        let last = fs[fs.len() - 1];
        encode_members(init, path, reps) + (if init.len() > 0 {
            seq![PieceView::Text(","@)]
        } else {
            Seq::empty()
        }) + seq![PieceView::Text(member_key_text(last.0))] + encode_value(
            last.1,
            path + "/"@ + escape_token(last.0),
            reps,
        )
    }
}

pub open spec fn encode_items(items: Seq<Json>, path: Seq<char>, reps: Seq<(Seq<char>, Seq<char>)>) -> Seq<PieceView>
    decreases items,
{
    if items.len() == 0 {
        Seq::empty()
    } else {
        let init = items.subrange(0, items.len() - 1);
        encode_items(init, path, reps) + (if init.len() > 0 {
            seq![PieceView::Text(","@)]
        } else {
            Seq::empty()
        }) + encode_value(
            items[items.len() - 1],
            path + "/"@ + decimal(init.len()),
            reps,
        )
    }
}

fn find_replacement(reps: &[(String, String)], path: &str) -> (r: Option<usize>)
    ensures
        match r {
            Some(i) => replacement_for(replacements_view(reps@), path@) == Some(i as int) && i
                < reps@.len(),
            None => replacement_for(replacements_view(reps@), path@) is None,
        },
{
    let ghost rv = replacements_view(reps@);
    let mut k: usize = reps.len();
    proof {
        assert(rv.subrange(0, rv.len() as int) =~= rv);
    }
    while k > 0
        invariant
            0 <= k <= reps@.len(),
            rv == replacements_view(reps@),
            replacement_for(rv, path@) == replacement_for(rv.subrange(0, k as int), path@),
        decreases k,
    {
        let ghost sub = rv.subrange(0, k as int);
        proof {
            assert(sub.drop_last() =~= rv.subrange(0, k - 1));
            assert(sub.last() == rv[k - 1]);
            assert(rv[k - 1] == (reps@[k - 1].0@, reps@[k - 1].1@));
        }
        if crate::text::str_eq(reps[k - 1].0.as_str(), path) {
            return Some(k - 1);
        }
        k -= 1;
    }
    proof {
        assert(rv.subrange(0, 0).len() == 0);
    }
    None
}

fn push_text(out: &mut Vec<EncodedPiece>, t: String)
    ensures
        pieces_view(final(out)@) == pieces_view(old(out)@).push(PieceView::Text(t@)),
{
    out.push(EncodedPiece::Text(t));
    proof {
        assert(pieces_view(out@) =~= pieces_view(old(out)@).push(PieceView::Text(t@)));
    }
}

fn key_text(key: &str) -> (r: String)
    ensures
        r@ == member_key_text(key@),
{
    let k = to_json_string(&JsonValue::Str(own(key)));
    concat(k.as_str(), ":")
}

#[verifier::loop_isolation(false)]
fn encode_value_into(v: &JsonValue, path: &str, reps: &[(String, String)], out: &mut Vec<EncodedPiece>)
    ensures
        pieces_view(final(out)@) == pieces_view(old(out)@) + encode_value(
            v@,
            path@,
            replacements_view(reps@),
        ),
    decreases *v,
{
    let ghost rv = replacements_view(reps@);
    let ghost start = pieces_view(out@);
    match find_replacement(reps, path) {
        Some(i) => {
            let mime = to_json_string(&JsonValue::Str(own(reps[i].1.as_str())));
            let mk = key_text("mimeType");
            let dk = key_text("data");
            let a = concat("{", mk.as_str());
            let b = concat(a.as_str(), mime.as_str());
            let c = concat(b.as_str(), ",");
            let d = concat(c.as_str(), dk.as_str());
            let e = concat(d.as_str(), "\"");
            push_text(out, e);
            out.push(EncodedPiece::Blob(i));
            let ghost mid = pieces_view(out@);
            push_text(out, own("\"}"));
            proof {
                assert(rv[i as int] == (reps@[i as int].0@, reps@[i as int].1@));
                assert(mid =~= start.push(PieceView::Text(e@)).push(PieceView::Blob(i as int)));
                assert(pieces_view(out@) =~= start + replacement_pieces(rv[i as int].1, i as int));
            }
            return;
        },
        None => {},
    }
    match v {
        JsonValue::Object(fields) => {
            push_text(out, own("{"));
            let ghost mf = model_fields(fields@);
            proof {
                lemma_model_fields_all(fields@);
                assert(mf.subrange(0, 0) =~= Seq::<(Seq<char>, Json)>::empty());
            }
            let mut i: usize = 0;
            while i < fields.len()
                invariant
                    0 <= i <= fields.len(),
                    pieces_view(out@) == start + seq![PieceView::Text("{"@)] + encode_members(
                        mf.subrange(0, i as int),
                        path@,
                        rv,
                    ),
                decreases fields.len() - i,
            {
                let ghost before = pieces_view(out@);
                if i > 0 {
                    push_text(out, own(","));
                }
                let kt = key_text(fields[i].0.as_str());
                push_text(out, kt);
                let esc = escape_json_pointer_token(fields[i].0.as_str());
                let p1 = concat(path, "/");
                let child_path = concat(p1.as_str(), esc.as_str());
                proof {
                    assert(decreases_to!(*v => fields@[i as int].1));
                }
                let ghost mid = pieces_view(out@);
                encode_value_into(&fields[i].1, child_path.as_str(), reps, out);
                proof {
                    let sub = mf.subrange(0, i + 1);
                    assert(sub.subrange(0, sub.len() - 1) =~= mf.subrange(0, i as int));
                    assert(sub[sub.len() - 1] == mf[i as int]);
                    assert(mf[i as int].0 == fields@[i as int].0@);
                    let sep = if i > 0 {
                        seq![PieceView::Text(","@)]
                    } else {
                        Seq::<PieceView>::empty()
                    };
                    assert(mid =~= before + sep + seq![PieceView::Text(member_key_text(mf[i as int].0))]);
                    assert(pieces_view(out@) =~= start + seq![PieceView::Text("{"@)] + encode_members(
                        sub,
                        path@,
                        rv,
                    ));
                }
                i += 1;
            }
            push_text(out, own("}"));
            proof {
                assert(mf.subrange(0, mf.len() as int) =~= mf);
                assert(pieces_view(out@) =~= start + encode_value(v@, path@, rv));
            }
        },
        JsonValue::Array(items) => {
            push_text(out, own("["));
            let ghost ms = model_seq(items@);
            proof {
                lemma_model_seq_all(items@);
                assert(ms.subrange(0, 0) =~= Seq::<Json>::empty());
            }
            let mut i: usize = 0;
            while i < items.len()
                invariant
                    0 <= i <= items.len(),
                    pieces_view(out@) == start + seq![PieceView::Text("["@)] + encode_items(
                        ms.subrange(0, i as int),
                        path@,
                        rv,
                    ),
                decreases items.len() - i,
            {
                let ghost before = pieces_view(out@);
                if i > 0 {
                    push_text(out, own(","));
                }
                let idx = u64_to_decimal(i as u64);
                let p1 = concat(path, "/");
                let child_path = concat(p1.as_str(), idx.as_str());
                proof {
                    assert(decreases_to!(*v => items@[i as int]));
                }
                let ghost mid = pieces_view(out@);
                encode_value_into(&items[i], child_path.as_str(), reps, out);
                proof {
                    let sub = ms.subrange(0, i + 1);
                    assert(sub.subrange(0, sub.len() - 1) =~= ms.subrange(0, i as int));
                    assert(sub[sub.len() - 1] == ms[i as int]);
                    let sep = if i > 0 {
                        seq![PieceView::Text(","@)]
                    } else {
                        Seq::<PieceView>::empty()
                    };
                    assert(mid =~= before + sep);
                    assert(pieces_view(out@) =~= start + seq![PieceView::Text("["@)] + encode_items(
                        sub,
                        path@,
                        rv,
                    ));
                }
                i += 1;
            }
            push_text(out, own("]"));
            proof {
                assert(ms.subrange(0, ms.len() as int) =~= ms);
                assert(pieces_view(out@) =~= start + encode_value(v@, path@, rv));
            }
        },
        _ => {
            let t = to_json_string(v);
            push_text(out, t);
            proof {
                assert(pieces_view(out@) =~= start + encode_value(v@, path@, rv));
            }
        },
    }
}

/// The body sent upstream, as pieces: `output` removed from the request
/// and its image configuration, the request written as compact JSON, and
/// every value at a replaced JSON pointer written as an inline image whose
/// base64 data is the stored image of that replacement. The replacements
/// are a list of (JSON pointer, MIME type) pairs rather than a map keyed
/// by pointer text, which would come with no specification of lookup.
pub fn encode_request_body(request: JsonValue, replacements: &[(String, String)]) -> (r: Vec<EncodedPiece>)
    ensures
        pieces_view(r@) == encode_value(strip_output(request@), ""@, replacements_view(replacements@)),
{
    let body = strip_output_fields(request);
    let mut out: Vec<EncodedPiece> = Vec::new();
    proof {
        assert(pieces_view(out@) =~= Seq::<PieceView>::empty());
    }
    encode_value_into(&body, "", replacements, &mut out);
    proof {
        assert(Seq::<PieceView>::empty() + encode_value(body@, ""@, replacements_view(replacements@))
            =~= encode_value(body@, ""@, replacements_view(replacements@)));
    }
    out
}

} // verus!
