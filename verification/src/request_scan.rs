//! Finding the image URLs that a request carries in `inlineData.data`.
use vstd::prelude::*;

use crate::json::{
    fields_get_object, fields_get_str, member_object, member_str, lemma_model_fields_all, lemma_model_seq_all, model, model_fields, model_seq, Json,
    JsonValue,
};
use crate::admin::{add_new, lemma_add_new_contains, push_new};
use crate::text::{
    chars_of, decimal, own, starts_with, starts_with_vec, str_eq, string_of, strs_view, u64_to_decimal,
};

verus! {

/// The most image URLs one request may reference.
pub const MAX_INLINE_DATA_URLS: usize = 7;

#[derive(Clone, Debug, PartialEq, Eq)]
pub struct RequestImageRef {
    pub json_pointer: String,
    pub url: String,
}

pub open spec fn ref_view(r: RequestImageRef) -> (Seq<char>, Seq<char>) {
    (r.json_pointer@, r.url@)
}

pub open spec fn refs_view(v: Seq<RequestImageRef>) -> Seq<(Seq<char>, Seq<char>)> {
    v.map_values(|r: RequestImageRef| ref_view(r))
}

/// `http://` or `https://`.
pub open spec fn is_http_url(s: Seq<char>) -> bool {
    starts_with(s, "http://"@) || starts_with(s, "https://"@)
}

pub fn is_http_url_exec(s: &str) -> (r: bool)
    ensures
        r == is_http_url(s@),
{
    let v = chars_of(s);
    let a = chars_of("http://");
    let b = chars_of("https://");
    starts_with_vec(&v, &a) || starts_with_vec(&v, &b)
}

pub open spec fn escape_char(c: char) -> Seq<char> {
    if c == '~' {
        seq!['~', '0']
    } else if c == '/' {
        seq!['~', '1']
    } else {
        seq![c]
    }
}

/// A JSON pointer reference token: `~` written `~0`, `/` written `~1`.
pub open spec fn escape_token(t: Seq<char>) -> Seq<char>
    decreases t.len(),
{
    if t.len() == 0 {
        Seq::empty()
    } else {
        escape_token(t.drop_last()) + escape_char(t.last())
    }
}

/// `token.replace('~', "~0").replace('/', "~1")`.
pub fn escape_json_pointer_token(token: &str) -> (r: String)
    ensures
        r@ == escape_token(token@),
{
    let v = chars_of(token);
    let mut out: Vec<char> = Vec::new();
    let mut i: usize = 0;
    while i < v.len()
        invariant
            0 <= i <= v.len(),
            v@ == token@,
            out@ == escape_token(v@.subrange(0, i as int)),
        decreases v.len() - i,
    {
        let c = v[i];
        proof {
            assert(v@.subrange(0, i + 1).drop_last() =~= v@.subrange(0, i as int));
        }
        if c == '~' {
            out.push('~');
            out.push('0');
        } else if c == '/' {
            out.push('~');
            out.push('1');
        } else {
            out.push(c);
        }
        proof {
            assert(out@ =~= escape_token(v@.subrange(0, i as int)) + escape_char(c));
        }
        i += 1;
    }
    assert(v@.subrange(0, v.len() as int) =~= v@);
    string_of(&out)
}

/// The reference a JSON object makes by its own `inlineData` member.
pub open spec fn own_ref(fs: Seq<(Seq<char>, Json)>, path: Seq<char>) -> Seq<
    (Seq<char>, Seq<char>),
> {
    match member_object(fs, "inlineData"@) {
        Some(inl) => match member_str(inl, "data"@) {
            Some(d) => if is_http_url(d) {
                seq![(path + "/"@ + "inlineData"@, d)]
            } else {
                Seq::empty()
            },
            None => Seq::empty(),
        },
        None => Seq::empty(),
    }
}

/// Every image URL reference under `v`, whose JSON pointer is `path`, in
/// document order: an object's own `inlineData` first, then its members.
pub open spec fn refs_of(v: Json, path: Seq<char>) -> Seq<(Seq<char>, Seq<char>)>
    decreases v,
{
    match v {
        Json::Object(fs) => own_ref(fs, path) + refs_fields(fs, path),
        Json::Array(items) => refs_items(items, path),
        _ => Seq::empty(),
    }
}

pub open spec fn refs_fields(fs: Seq<(Seq<char>, Json)>, path: Seq<char>) -> Seq<
    (Seq<char>, Seq<char>),
>
    decreases fs,
{
    if fs.len() == 0 {
        Seq::empty()
    } else {
        refs_fields(fs.subrange(0, fs.len() - 1), path) + refs_of(
            fs[fs.len() - 1].1,
            path + "/"@ + escape_token(fs[fs.len() - 1].0),
        )
    }
}

pub open spec fn refs_items(items: Seq<Json>, path: Seq<char>) -> Seq<(Seq<char>, Seq<char>)>
    decreases items,
{
    if items.len() == 0 {
        Seq::empty()
    } else {
        refs_items(items.subrange(0, items.len() - 1), path) + refs_of(
            items[items.len() - 1],
            path + "/"@ + decimal((items.len() - 1) as nat),
        )
    }
}

/// The object's own `inlineData.data` is an `http(s)` URL.
pub open spec fn has_own_url(fs: Seq<(Seq<char>, Json)>) -> bool {
    match member_object(fs, "inlineData"@) {
        Some(inl) => match member_str(inl, "data"@) {
            Some(d) => is_http_url(d),
            None => false,
        },
        None => false,
    }
}

/// How many objects in the document, at any depth, hold an `http(s)` URL
/// in `inlineData.data`.
pub open spec fn url_object_count(v: Json) -> nat
    decreases v,
{
    match v {
        Json::Object(fs) => (if has_own_url(fs) {
            1nat
        } else {
            0nat
        }) + url_object_count_fields(fs),
        Json::Array(items) => url_object_count_items(items),
        _ => 0,
    }
}

pub open spec fn url_object_count_fields(fs: Seq<(Seq<char>, Json)>) -> nat
    decreases fs,
{
    if fs.len() == 0 {
        0
    } else {
        url_object_count_fields(fs.subrange(0, fs.len() - 1)) + url_object_count(
            fs[fs.len() - 1].1,
        )
    }
}

pub open spec fn url_object_count_items(items: Seq<Json>) -> nat
    decreases items,
{
    if items.len() == 0 {
        0
    } else {
        url_object_count_items(items.subrange(0, items.len() - 1)) + url_object_count(
            items[items.len() - 1],
        )
    }
}

/// Each object with an image URL makes exactly one reference.
pub proof fn lemma_refs_count(v: Json, path: Seq<char>)
    ensures
        refs_of(v, path).len() == url_object_count(v),
    decreases v,
{
    match v {
        Json::Object(fs) => {
            assert(own_ref(fs, path).len() == if has_own_url(fs) {
                1nat
            } else {
                0nat
            });
            lemma_refs_fields_count(fs, path);
        },
        Json::Array(items) => {
            lemma_refs_items_count(items, path);
        },
        _ => {},
    }
}

proof fn lemma_refs_fields_count(fs: Seq<(Seq<char>, Json)>, path: Seq<char>)
    ensures
        refs_fields(fs, path).len() == url_object_count_fields(fs),
    decreases fs,
{
    if fs.len() > 0 {
        lemma_refs_fields_count(fs.subrange(0, fs.len() - 1), path);
        lemma_refs_count(fs[fs.len() - 1].1, path + "/"@ + escape_token(fs[fs.len() - 1].0));
    }
}

proof fn lemma_refs_items_count(items: Seq<Json>, path: Seq<char>)
    ensures
        refs_items(items, path).len() == url_object_count_items(items),
    decreases items,
{
    if items.len() > 0 {
        lemma_refs_items_count(items.subrange(0, items.len() - 1), path);
        lemma_refs_count(
            items[items.len() - 1],
            path + "/"@ + decimal((items.len() - 1) as nat),
        );
    }
}

/// `scan_request_image_urls`: the references, or an error when there are
/// more than `MAX_INLINE_DATA_URLS`.
pub open spec fn spec_scan(body: Json) -> Result<Seq<(Seq<char>, Seq<char>)>, Seq<char>> {
    let refs = refs_of(body, Seq::empty());
    if refs.len() > MAX_INLINE_DATA_URLS {
        Err(TOO_MANY_URLS_MESSAGE())
    } else {
        Ok(refs)
    }
}

pub open spec fn TOO_MANY_URLS_MESSAGE() -> Seq<char> {
    "too many inlineData URLs"@
}

fn path_child(path: &Vec<char>, token: &str) -> (r: Vec<char>)
    ensures
        r@ == path@ + "/"@ + token@,
{
    let mut out = path.clone();
    let slash = chars_of("/");
    let t = chars_of(token);
    let mut i: usize = 0;
    let ghost base = out@;
    assert(base == path@);
    while i < slash.len()
        invariant
            0 <= i <= slash.len(),
            out@ == base + slash@.subrange(0, i as int),
        decreases slash.len() - i,
    {
        out.push(slash[i]);
        assert(slash@.subrange(0, i + 1) =~= slash@.subrange(0, i as int).push(slash@[i as int]));
        i += 1;
    }
    assert(slash@.subrange(0, slash.len() as int) =~= slash@);
    let ghost mid = out@;
    let mut j: usize = 0;
    while j < t.len()
        invariant
            0 <= j <= t.len(),
            out@ == mid + t@.subrange(0, j as int),
        decreases t.len() - j,
    {
        out.push(t[j]);
        assert(t@.subrange(0, j + 1) =~= t@.subrange(0, j as int).push(t@[j as int]));
        j += 1;
    }
    assert(t@.subrange(0, t.len() as int) =~= t@);
    out
}

/// The reference that an object's own `inlineData` makes, if any.
fn own_ref_exec(fields: &Vec<(String, JsonValue)>, path: &Vec<char>) -> (r: Option<
    RequestImageRef,
>)
    ensures
        match r {
            Some(x) => own_ref(model_fields(fields@), path@) == seq![ref_view(x)],
            None => own_ref(model_fields(fields@), path@) == Seq::<(Seq<char>, Seq<char>)>::empty(),
        },
{
    match fields_get_object(fields, "inlineData") {
        Some(inner) => match fields_get_str(inner, "data") {
            Some(d) => {
                if is_http_url_exec(d.as_str()) {
                    let p = path_child(path, "inlineData");
                    Some(RequestImageRef { json_pointer: string_of(&p), url: d.clone() })
                } else {
                    None
                }
            },
            None => None,
        },
        None => None,
    }
}

#[verifier::loop_isolation(false)]
#[verifier::rlimit(80)]
fn walk(node: &JsonValue, path: &Vec<char>, matches: &mut Vec<RequestImageRef>)
    ensures
        refs_view(final(matches)@) == refs_view(old(matches)@) + refs_of(node@, path@),
    decreases node,
{
    match node {
        JsonValue::Object(fields) => {
            let ghost mf = model_fields(fields@);
            proof {
                lemma_model_fields_all(fields@);
            }
            let ghost start = refs_view(matches@);
            match own_ref_exec(fields, path) {
                Some(x) => {
                    matches.push(x);
                    proof {
                        assert(refs_view(matches@) =~= start + own_ref(mf, path@));
                    }
                },
                None => {
                    proof {
                        assert(refs_view(matches@) =~= start + own_ref(mf, path@));
                    }
                },
            }
            let ghost after_own = refs_view(matches@);
            let mut i: usize = 0;
            proof {
                assert(refs_fields(mf.subrange(0, 0), path@) =~= Seq::empty());
                assert(after_own =~= after_own + refs_fields(mf.subrange(0, 0), path@));
            }
            while i < fields.len()
                invariant
                    0 <= i <= fields.len(),
                    mf == model_fields(fields@),
                    mf.len() == fields@.len(),
                    forall|k: int|
                        0 <= k < fields@.len() ==> #[trigger] mf[k] == (
                            fields@[k].0@,
                            model(fields@[k].1),
                        ),
                    refs_view(matches@) == after_own + refs_fields(mf.subrange(0, i as int), path@),
                decreases fields.len() - i,
            {
                proof {
                    assert(decreases_to!(*node => fields@[i as int].1));
                }
                let esc = escape_json_pointer_token(fields[i].0.as_str());
                let child_path = path_child(path, esc.as_str());
                let ghost before = refs_view(matches@);
                walk(&fields[i].1, &child_path, matches);
                proof {
                    let sub = mf.subrange(0, i + 1);
                    assert(sub.subrange(0, sub.len() - 1) =~= mf.subrange(0, i as int));
                    assert(sub[sub.len() - 1] == mf[i as int]);
                    assert(refs_view(matches@) =~= after_own + refs_fields(sub, path@));
                }
                i += 1;
            }
            proof {
                assert(mf.subrange(0, fields@.len() as int) =~= mf);
                assert(refs_view(matches@) =~= start + refs_of(node@, path@));
            }
        },
        JsonValue::Array(items) => {
            let ghost ms = model_seq(items@);
            proof {
                lemma_model_seq_all(items@);
            }
            let ghost start = refs_view(matches@);
            let mut i: usize = 0;
            proof {
                assert(refs_items(ms.subrange(0, 0), path@) =~= Seq::empty());
                assert(start =~= start + refs_items(ms.subrange(0, 0), path@));
            }
            while i < items.len()
                invariant
                    0 <= i <= items.len(),
                    ms == model_seq(items@),
                    ms.len() == items@.len(),
                    forall|k: int| 0 <= k < items@.len() ==> #[trigger] ms[k] == model(items@[k]),
                    refs_view(matches@) == start + refs_items(ms.subrange(0, i as int), path@),
                decreases items.len() - i,
            {
                proof {
                    assert(decreases_to!(*node => items@[i as int]));
                }
                let idx = u64_to_decimal(i as u64);
                let child_path = path_child(path, idx.as_str());
                walk(&items[i], &child_path, matches);
                proof {
                    let sub = ms.subrange(0, i + 1);
                    assert(sub.subrange(0, sub.len() - 1) =~= ms.subrange(0, i as int));
                    assert(sub[sub.len() - 1] == ms[i as int]);
                    assert(refs_view(matches@) =~= start + refs_items(sub, path@));
                }
                i += 1;
            }
            proof {
                assert(ms.subrange(0, items@.len() as int) =~= ms);
                assert(refs_view(matches@) =~= start + refs_of(node@, path@));
            }
        },
        _ => {
            proof {
                assert(refs_view(matches@) =~= refs_view(old(matches)@) + refs_of(node@, path@));
            }
        },
    }
}

/// The image URL references of a request body, with their JSON pointers;
/// an error when there are more than `MAX_INLINE_DATA_URLS`.
pub fn scan_request_image_urls(body: &JsonValue) -> (r: Result<Vec<RequestImageRef>, String>)
    ensures
        match r {
            Ok(v) => spec_scan(body@) == Ok::<Seq<(Seq<char>, Seq<char>)>, Seq<char>>(
                refs_view(v@),
            ),
            Err(e) => spec_scan(body@) == Err::<Seq<(Seq<char>, Seq<char>)>, Seq<char>>(e@),
        },
{
    let mut matches: Vec<RequestImageRef> = Vec::new();
    let root: Vec<char> = Vec::new();
    proof {
        assert(refs_view(matches@) =~= Seq::empty());
        assert(root@ =~= Seq::<char>::empty());
    }
    walk(body, &root, &mut matches);
    proof {
        assert(refs_view(matches@) =~= refs_of(body@, Seq::empty()));
    }
    if matches.len() > MAX_INLINE_DATA_URLS {
        return Err(own("too many inlineData URLs"));
    }
    Ok(matches)
}


/// The URLs of the references.
pub open spec fn ref_urls(v: Seq<RequestImageRef>) -> Seq<Seq<char>> {
    v.map_values(|r: RequestImageRef| r.url@)
}

/// The distinct URLs of the references, in the order they first occur:
/// each image is downloaded once however often the request names it.
pub fn unique_request_image_urls(refs: &[RequestImageRef]) -> (r: Vec<String>)
    ensures
        strs_view(r@) == add_new(Seq::empty(), ref_urls(refs@)),
{
    let ghost us = ref_urls(refs@);
    let mut out: Vec<String> = Vec::new();
    let mut i: usize = 0;
    proof {
        assert(us.take(0) =~= Seq::<Seq<char>>::empty());
        assert(strs_view(out@) =~= Seq::<Seq<char>>::empty());
    }
    while i < refs.len()
        invariant
            0 <= i <= refs.len(),
            us == ref_urls(refs@),
            strs_view(out@) == add_new(Seq::empty(), us.take(i as int)),
        decreases refs.len() - i,
    {
        let ghost before = strs_view(out@);
        push_new(&mut out, refs[i].url.clone());
        proof {
            let u = us[i as int];
            assert(us.take(i + 1).drop_last() =~= us.take(i as int));
            assert(us.take(i + 1).last() == u);
            assert(seq![u].drop_last() =~= Seq::<Seq<char>>::empty());
            assert(add_new(before, Seq::<Seq<char>>::empty()) == before);
        }
        i += 1;
    }
    proof {
        assert(us.take(refs@.len() as int) =~= us);
    }
    out
}

/// Where the URL of each reference stands among `unique_urls`: its first
/// position, or `None` where it is not there. With the list that
/// `unique_request_image_urls` gives, every reference finds its download.
pub fn ref_url_indices(refs: &[RequestImageRef], unique_urls: &[String]) -> (r: Vec<Option<usize>>)
    ensures
        r@.len() == refs@.len(),
        forall|i: int|
            0 <= i < refs@.len() ==> match #[trigger] r@[i] {
                Some(k) => {
                    &&& k < unique_urls@.len()
                    &&& unique_urls@[k as int]@ == refs@[i].url@
                    &&& forall|j: int| 0 <= j < k ==> unique_urls@[j]@ != refs@[i].url@
                },
                None => forall|j: int| 0 <= j < unique_urls@.len() ==> unique_urls@[j]@ != refs@[i].url@,
            },
        strs_view(unique_urls@) == add_new(Seq::empty(), ref_urls(refs@)) ==> forall|i: int|
            0 <= i < refs@.len() ==> #[trigger] r@[i] is Some,
{
    let mut out: Vec<Option<usize>> = Vec::new();
    let mut i: usize = 0;
    while i < refs.len()
        invariant
            0 <= i <= refs.len(),
            out@.len() == i,
            forall|m: int|
                0 <= m < i ==> match #[trigger] out@[m] {
                    Some(k) => {
                        &&& k < unique_urls@.len()
                        &&& unique_urls@[k as int]@ == refs@[m].url@
                        &&& forall|j: int| 0 <= j < k ==> unique_urls@[j]@ != refs@[m].url@
                    },
                    None => forall|j: int|
                        0 <= j < unique_urls@.len() ==> unique_urls@[j]@ != refs@[m].url@,
                },
        decreases refs.len() - i,
    {
        let url = refs[i].url.as_str();
        let mut found: Option<usize> = None;
        let mut k: usize = 0;
        while k < unique_urls.len()
            invariant
                0 <= k <= unique_urls.len(),
                url@ == refs@[i as int].url@,
                found is None ==> forall|j: int| 0 <= j < k ==> unique_urls@[j]@ != url@,
                found matches Some(f) ==> f < unique_urls@.len() && unique_urls@[f as int]@ == url@
                    && forall|j: int| 0 <= j < f ==> unique_urls@[j]@ != url@,
            decreases unique_urls.len() - k,
        {
            if found.is_none() && str_eq(unique_urls[k].as_str(), url) {
                found = Some(k);
            }
            k += 1;
        }
        out.push(found);
        proof {
            assert(out@[i as int] == found);
        }
        i += 1;
    }
    proof {
        if strs_view(unique_urls@) == add_new(Seq::empty(), ref_urls(refs@)) {
            let us = ref_urls(refs@);
            lemma_add_new_contains(Seq::empty(), us);
            assert forall|i: int| 0 <= i < refs@.len() implies #[trigger] out@[i] is Some by {
                assert(us[i] == refs@[i].url@);
                assert(strs_view(unique_urls@).contains(us[i]));
                let j = choose|j: int|
                    0 <= j < strs_view(unique_urls@).len() && strs_view(unique_urls@)[j] == us[i];
                assert(unique_urls@[j]@ == refs@[i].url@);
            }
        }
    }
    out
}

} // verus!
