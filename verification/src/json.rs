//! JSON documents as the proxy handles them.
//!
//! `JsonValue` is the executable document (object members keep their
//! insertion order); `Json` is its mathematical model, reached through
//! `JsonValue::view`.
use vstd::prelude::*;

use crate::text::{chars_of, own, seq_eq};

verus! {

/// A JSON document. Numbers keep the text they were written with.
#[derive(Debug, PartialEq)]
pub enum JsonValue {
    Null,
    Bool(bool),
    Number(String),
    Str(String),
    Array(Vec<JsonValue>),
    Object(Vec<(String, JsonValue)>),
}

/// The model of a JSON document.
pub enum Json {
    Null,
    Bool(bool),
    Number(Seq<char>),
    Str(Seq<char>),
    Array(Seq<Json>),
    Object(Seq<(Seq<char>, Json)>),
}

pub open spec fn model(v: JsonValue) -> Json
    decreases v,
{
    match v {
        JsonValue::Null => Json::Null,
        JsonValue::Bool(b) => Json::Bool(b),
        JsonValue::Number(n) => Json::Number(n@),
        JsonValue::Str(s) => Json::Str(s@),
        JsonValue::Array(items) => Json::Array(model_seq(items@)),
        JsonValue::Object(fields) => Json::Object(model_fields(fields@)),
    }
}

pub open spec fn model_seq(s: Seq<JsonValue>) -> Seq<Json>
    decreases s,
{
    if s.len() == 0 {
        Seq::empty()
    } else {
        seq![model(s[0])] + model_seq(s.subrange(1, s.len() as int))
    }
}

pub open spec fn model_fields(s: Seq<(String, JsonValue)>) -> Seq<(Seq<char>, Json)>
    decreases s,
{
    if s.len() == 0 {
        Seq::empty()
    } else {
        seq![(s[0].0@, model(s[0].1))] + model_fields(s.subrange(1, s.len() as int))
    }
}

impl View for JsonValue {
    type V = Json;

    open spec fn view(&self) -> Json {
        model(*self)
    }
}

// ---------------------------------------------------------------------
// Model lemmas
// ---------------------------------------------------------------------
pub proof fn lemma_model_seq_len(s: Seq<JsonValue>)
    ensures
        model_seq(s).len() == s.len(),
    decreases s.len(),
{
    if s.len() > 0 {
        lemma_model_seq_len(s.subrange(1, s.len() as int));
    }
}

pub proof fn lemma_model_seq_index(s: Seq<JsonValue>, i: int)
    requires
        0 <= i < s.len(),
    ensures
        model_seq(s).len() == s.len(),
        model_seq(s)[i] == model(s[i]),
    decreases s.len(),
{
    lemma_model_seq_len(s);
    if i > 0 {
        lemma_model_seq_index(s.subrange(1, s.len() as int), i - 1);
        lemma_model_seq_len(s.subrange(1, s.len() as int));
    }
}

/// The model of a sequence is the elementwise model.
pub proof fn lemma_model_seq_all(s: Seq<JsonValue>)
    ensures
        model_seq(s).len() == s.len(),
        forall|i: int| 0 <= i < s.len() ==> #[trigger] model_seq(s)[i] == model(s[i]),
{
    lemma_model_seq_len(s);
    assert forall|i: int| 0 <= i < s.len() implies #[trigger] model_seq(s)[i] == model(s[i]) by {
        lemma_model_seq_index(s, i);
    }
}

pub proof fn lemma_model_seq_ext(a: Seq<JsonValue>, b: Seq<Json>)
    requires
        a.len() == b.len(),
        forall|i: int| 0 <= i < a.len() ==> model(a[i]) == b[i],
    ensures
        model_seq(a) == b,
{
    lemma_model_seq_all(a);
    assert(model_seq(a) =~= b);
}

pub proof fn lemma_model_fields_len(s: Seq<(String, JsonValue)>)
    ensures
        model_fields(s).len() == s.len(),
    decreases s.len(),
{
    if s.len() > 0 {
        lemma_model_fields_len(s.subrange(1, s.len() as int));
    }
}

pub proof fn lemma_model_fields_index(s: Seq<(String, JsonValue)>, i: int)
    requires
        0 <= i < s.len(),
    ensures
        model_fields(s).len() == s.len(),
        model_fields(s)[i] == (s[i].0@, model(s[i].1)),
    decreases s.len(),
{
    lemma_model_fields_len(s);
    if i > 0 {
        lemma_model_fields_index(s.subrange(1, s.len() as int), i - 1);
        lemma_model_fields_len(s.subrange(1, s.len() as int));
    }
}

pub proof fn lemma_model_fields_all(s: Seq<(String, JsonValue)>)
    ensures
        model_fields(s).len() == s.len(),
        forall|i: int|
            0 <= i < s.len() ==> #[trigger] model_fields(s)[i] == (s[i].0@, model(s[i].1)),
{
    lemma_model_fields_len(s);
    assert forall|i: int| 0 <= i < s.len() implies #[trigger] model_fields(s)[i] == (
        s[i].0@,
        model(s[i].1),
    ) by {
        lemma_model_fields_index(s, i);
    }
}

pub proof fn lemma_model_fields_ext(a: Seq<(String, JsonValue)>, b: Seq<(Seq<char>, Json)>)
    requires
        a.len() == b.len(),
        forall|i: int| 0 <= i < a.len() ==> (a[i].0@, model(a[i].1)) == b[i],
    ensures
        model_fields(a) == b,
{
    lemma_model_fields_all(a);
    assert(model_fields(a) =~= b);
}

// ---------------------------------------------------------------------
// Model operations
// ---------------------------------------------------------------------
/// Position of the first member named `key`.
pub open spec fn field_index(fields: Seq<(Seq<char>, Json)>, key: Seq<char>) -> Option<int> {
    if exists|i: int| 0 <= i < fields.len() && fields[i].0 == key {
        Some(
            choose|i: int|
                0 <= i < fields.len() && fields[i].0 == key && forall|j: int|
                    0 <= j < i ==> fields[j].0 != key,
        )
    } else {
        None
    }
}

/// `map.get(key)`.
pub open spec fn field_get(fields: Seq<(Seq<char>, Json)>, key: Seq<char>) -> Option<Json> {
    match field_index(fields, key) {
        Some(i) => Some(fields[i].1),
        None => None,
    }
}

/// `value.get(key)`: a member of an object, `None` for anything else.
pub open spec fn get(v: Json, key: Seq<char>) -> Option<Json> {
    match v {
        Json::Object(fields) => field_get(fields, key),
        _ => None,
    }
}

/// `value.get(index)` on an array.
pub open spec fn at(v: Json, i: int) -> Option<Json> {
    match v {
        Json::Array(items) => if 0 <= i < items.len() {
            Some(items[i])
        } else {
            None
        },
        _ => None,
    }
}

/// Follow a path of object keys (a JSON pointer made of member names).
pub open spec fn get_path(v: Json, path: Seq<Seq<char>>) -> Option<Json>
    decreases path.len(),
{
    if path.len() == 0 {
        Some(v)
    } else {
        match get(v, path[0]) {
            Some(child) => get_path(child, path.subrange(1, path.len() as int)),
            None => None,
        }
    }
}

pub open spec fn keys_view(keys: Seq<&str>) -> Seq<Seq<char>> {
    keys.map_values(|k: &str| k@)
}

/// `a.or_else(|| b)`.
pub open spec fn first_of_opt(a: Option<Json>, b: Option<Json>) -> Option<Json> {
    match a {
        Some(x) => Some(x),
        None => b,
    }
}

pub open spec fn opt_get(v: Option<Json>, key: Seq<char>) -> Option<Json> {
    match v {
        Some(x) => get(x, key),
        None => None,
    }
}

/// `Value::as_str`.
pub open spec fn as_str(v: Option<Json>) -> Option<Seq<char>> {
    match v {
        Some(Json::Str(s)) => Some(s),
        _ => None,
    }
}

/// `Value::as_array`.
pub open spec fn as_array(v: Option<Json>) -> Option<Seq<Json>> {
    match v {
        Some(Json::Array(a)) => Some(a),
        _ => None,
    }
}

/// `Value::as_object`.
pub open spec fn as_object(v: Option<Json>) -> Option<Seq<(Seq<char>, Json)>> {
    match v {
        Some(Json::Object(m)) => Some(m),
        _ => None,
    }
}

/// `map.insert(key, value)`: replaces in place when present, appends otherwise.
pub open spec fn field_insert(fields: Seq<(Seq<char>, Json)>, key: Seq<char>, value: Json) -> Seq<
    (Seq<char>, Json),
> {
    match field_index(fields, key) {
        Some(i) => fields.update(i, (key, value)),
        None => fields.push((key, value)),
    }
}

/// `map.remove(key)` of an insertion-ordered map: the last member takes the
/// place of the removed one.
pub open spec fn field_remove(fields: Seq<(Seq<char>, Json)>, key: Seq<char>) -> Seq<
    (Seq<char>, Json),
> {
    match field_index(fields, key) {
        Some(i) => fields.update(i, fields.last()).drop_last(),
        None => fields,
    }
}

pub proof fn lemma_field_index_at(fields: Seq<(Seq<char>, Json)>, key: Seq<char>, i: int)
    requires
        0 <= i < fields.len(),
        fields[i].0 == key,
        forall|j: int| 0 <= j < i ==> fields[j].0 != key,
    ensures
        field_index(fields, key) == Some(i),
{
    let k = choose|k: int|
        0 <= k < fields.len() && fields[k].0 == key && forall|j: int|
            0 <= j < k ==> fields[j].0 != key;
    assert(k == i) by {
        if k < i {
        } else if k > i {
            assert(fields[i].0 != key);
        }
    }
}

pub proof fn lemma_field_index_none(fields: Seq<(Seq<char>, Json)>, key: Seq<char>)
    requires
        forall|j: int| 0 <= j < fields.len() ==> fields[j].0 != key,
    ensures
        field_index(fields, key) == None::<int>,
{
}

// ---------------------------------------------------------------------
// Exec operations
// ---------------------------------------------------------------------
/// Position of the first member named `key` in an object's members.
pub fn find_field(fields: &Vec<(String, JsonValue)>, key: &str) -> (r: Option<usize>)
    ensures
        match r {
            Some(i) => i < fields.len() && field_index(model_fields(fields@), key@) == Some(
                i as int,
            ),
            None => field_index(model_fields(fields@), key@) == None::<int>,
        },
{
    let k = chars_of(key);
    let mut i: usize = 0;
    proof {
        lemma_model_fields_all(fields@);
    }
    while i < fields.len()
        invariant
            0 <= i <= fields.len(),
            k@ == key@,
            model_fields(fields@).len() == fields@.len(),
            forall|j: int|
                0 <= j < fields@.len() ==> #[trigger] model_fields(fields@)[j] == (
                    fields@[j].0@,
                    model(fields@[j].1),
                ),
            forall|j: int| 0 <= j < i ==> #[trigger] model_fields(fields@)[j].0 != key@,
        decreases fields.len() - i,
    {
        let name = chars_of(fields[i].0.as_str());
        if seq_eq(&name, &k) {
            proof {
                lemma_field_index_at(model_fields(fields@), key@, i as int);
            }
            return Some(i);
        }
        i += 1;
    }
    None
}

impl JsonValue {
    /// `value.get(key)`.
    pub fn get(&self, key: &str) -> (r: Option<&JsonValue>)
        ensures
            match r {
                Some(x) => get(self@, key@) == Some(x@),
                None => get(self@, key@) == None::<Json>,
            },
    {
        match self {
            JsonValue::Object(fields) => {
                match find_field(fields, key) {
                    Some(i) => {
                        proof {
                            lemma_model_fields_index(fields@, i as int);
                        }
                        Some(&fields[i].1)
                    },
                    None => None,
                }
            },
            _ => None,
        }
    }

    /// `value.pointer("/k1/k2/...")` for a pointer made of member names.
    pub fn get_path(&self, keys: &[&str]) -> (r: Option<&JsonValue>)
        ensures
            match r {
                Some(x) => get_path(self@, keys_view(keys@)) == Some(x@),
                None => get_path(self@, keys_view(keys@)) == None::<Json>,
            },
    {
        let ghost kv = keys_view(keys@);
        let mut cur: &JsonValue = self;
        let mut i: usize = 0;
        assert(kv.subrange(0, kv.len() as int) =~= kv);
        while i < keys.len()
            invariant
                0 <= i <= keys.len(),
                kv == keys_view(keys@),
                kv.len() == keys@.len(),
                get_path(self@, kv) == get_path(cur@, kv.subrange(i as int, kv.len() as int)),
            decreases keys.len() - i,
        {
            let ghost rest = kv.subrange(i as int, kv.len() as int);
            assert(rest[0] == keys@[i as int]@);
            assert(rest.subrange(1, rest.len() as int) =~= kv.subrange(i + 1, kv.len() as int));
            match cur.get(keys[i]) {
                Some(child) => {
                    cur = child;
                },
                None => {
                    return None;
                },
            }
            i += 1;
        }
        assert(kv.subrange(i as int, kv.len() as int) =~= Seq::<Seq<char>>::empty());
        Some(cur)
    }

    /// `value.as_str()`.
    pub fn as_str(&self) -> (r: Option<&String>)
        ensures
            match r {
                Some(s) => self@ == Json::Str(s@),
                None => !(self@ is Str),
            },
    {
        match self {
            JsonValue::Str(s) => Some(s),
            _ => None,
        }
    }

    /// `value.get(key).and_then(Value::as_str)`.
    pub fn get_str(&self, key: &str) -> (r: Option<&String>)
        ensures
            match r {
                Some(s) => as_str(get(self@, key@)) == Some(s@),
                None => as_str(get(self@, key@)) == None::<Seq<char>>,
            },
    {
        match self.get(key) {
            Some(v) => v.as_str(),
            None => None,
        }
    }

    pub fn is_object(&self) -> (r: bool)
        ensures
            r == (self@ is Object),
    {
        match self {
            JsonValue::Object(_) => true,
            _ => false,
        }
    }

    /// An empty object.
    pub fn empty_object() -> (r: JsonValue)
        ensures
            r@ == Json::Object(Seq::empty()),
    {
        let v: Vec<(String, JsonValue)> = Vec::new();
        proof {
            assert(model_fields(v@) =~= Seq::empty());
        }
        JsonValue::Object(v)
    }

    /// A string value.
    pub fn string(s: &str) -> (r: JsonValue)
        ensures
            r@ == Json::Str(s@),
    {
        JsonValue::Str(own(s))
    }

    /// A deep copy.
    #[verifier::loop_isolation(false)]
    pub fn deep_clone(&self) -> (r: JsonValue)
        ensures
            r@ == self@,
        decreases self,
    {
        match self {
            JsonValue::Null => JsonValue::Null,
            JsonValue::Bool(b) => JsonValue::Bool(*b),
            JsonValue::Number(n) => JsonValue::Number(n.clone()),
            JsonValue::Str(s) => JsonValue::Str(s.clone()),
            JsonValue::Array(items) => {
                let mut out: Vec<JsonValue> = Vec::new();
                let mut i: usize = 0;
                while i < items.len()
                    invariant
                        0 <= i <= items.len(),
                        out@.len() == i,
                        forall|k: int| 0 <= k < i ==> #[trigger] out@[k]@ == items@[k]@,
                    decreases items.len() - i,
                {
                    proof {
                        assert(decreases_to!(*self => items@[i as int]));
                    }
                    let c = items[i].deep_clone();
                    out.push(c);
                    i += 1;
                }
                proof {
                    lemma_model_seq_all(items@);
                    assert forall|k: int| 0 <= k < out@.len() implies model(out@[k]) == model_seq(
                        items@,
                    )[k] by {
                        assert(out@[k]@ == items@[k]@);
                    }
                    lemma_model_seq_ext(out@, model_seq(items@));
                }
                JsonValue::Array(out)
            },
            JsonValue::Object(fields) => {
                let mut out: Vec<(String, JsonValue)> = Vec::new();
                let mut i: usize = 0;
                while i < fields.len()
                    invariant
                        0 <= i <= fields.len(),
                        out@.len() == i,
                        forall|k: int|
                            0 <= k < i ==> #[trigger] out@[k].0@ == fields@[k].0@ && out@[k].1@
                                == fields@[k].1@,
                    decreases fields.len() - i,
                {
                    proof {
                        assert(decreases_to!(*self => fields@[i as int].1));
                    }
                    let c = fields[i].1.deep_clone();
                    out.push((fields[i].0.clone(), c));
                    i += 1;
                }
                proof {
                    lemma_model_fields_all(fields@);
                    assert forall|k: int| 0 <= k < out@.len() implies (
                        out@[k].0@,
                        model(out@[k].1),
                    ) == model_fields(fields@)[k] by {
                        assert(out@[k].0@ == fields@[k].0@ && out@[k].1@ == fields@[k].1@);
                    }
                    lemma_model_fields_ext(out@, model_fields(fields@));
                }
                JsonValue::Object(out)
            },
        }
    }
}

/// `map.insert(key, value)` on an object's members.
pub fn fields_insert(fields: &mut Vec<(String, JsonValue)>, key: String, value: JsonValue)
    ensures
        model_fields(final(fields)@) == field_insert(model_fields(old(fields)@), key@, value@),
{
    proof {
        lemma_model_fields_all(old(fields)@);
    }
    let ghost k = key@;
    let ghost m = value@;
    match find_field(fields, key.as_str()) {
        Some(i) => {
            fields.set(i, (key, value));
            proof {
                lemma_model_fields_ext(
                    fields@,
                    model_fields(old(fields)@).update(i as int, (k, m)),
                );
            }
        },
        None => {
            fields.push((key, value));
            proof {
                lemma_model_fields_ext(fields@, model_fields(old(fields)@).push((k, m)));
            }
        },
    }
}

/// `map.remove(key)` on an object's members; returns the removed value.
pub fn fields_remove(fields: &mut Vec<(String, JsonValue)>, key: &str) -> (r: Option<JsonValue>)
    ensures
        model_fields(final(fields)@) == field_remove(model_fields(old(fields)@), key@),
        match r {
            Some(v) => field_get(model_fields(old(fields)@), key@) == Some(v@),
            None => field_get(model_fields(old(fields)@), key@) == None::<Json>,
        },
{
    proof {
        lemma_model_fields_all(old(fields)@);
    }
    match find_field(fields, key) {
        Some(i) => {
            let ghost before = model_fields(old(fields)@);
            let removed = fields.swap_remove(i);
            proof {
                assert(old(fields)@.update(i as int, old(fields)@.last()).drop_last() =~= fields@);
                lemma_model_fields_ext(fields@, before.update(i as int, before.last()).drop_last());
            }
            Some(removed.1)
        },
        None => None,
    }
}

/// The members of the object that `key` names, when it names an object.
pub open spec fn member_object(fs: Seq<(Seq<char>, Json)>, key: Seq<char>) -> Option<
    Seq<(Seq<char>, Json)>,
> {
    match field_get(fs, key) {
        Some(Json::Object(inner)) => Some(inner),
        _ => None,
    }
}

/// The string that `key` names, when it names a string.
pub open spec fn member_str(fs: Seq<(Seq<char>, Json)>, key: Seq<char>) -> Option<Seq<char>> {
    match field_get(fs, key) {
        Some(Json::Str(s)) => Some(s),
        _ => None,
    }
}

/// `map.get(key)` among an object's members.
pub fn fields_get<'a>(fields: &'a Vec<(String, JsonValue)>, key: &str) -> (r: Option<&'a JsonValue>)
    ensures
        match r {
            Some(x) => field_get(model_fields(fields@), key@) == Some(x@),
            None => field_get(model_fields(fields@), key@) is None,
        },
{
    match find_field(fields, key) {
        Some(i) => {
            proof {
                lemma_model_fields_index(fields@, i as int);
            }
            Some(&fields[i].1)
        },
        None => None,
    }
}

/// `map.get(key)` when it is an object.
pub fn fields_get_object<'a>(fields: &'a Vec<(String, JsonValue)>, key: &str) -> (r: Option<
    &'a Vec<(String, JsonValue)>,
>)
    ensures
        match r {
            Some(inner) => member_object(model_fields(fields@), key@) == Some(
                model_fields(inner@),
            ),
            None => member_object(model_fields(fields@), key@) is None,
        },
{
    match fields_get(fields, key) {
        Some(JsonValue::Object(inner)) => Some(inner),
        _ => None,
    }
}

/// `map.get(key)` when it is a string.
pub fn fields_get_str<'a>(fields: &'a Vec<(String, JsonValue)>, key: &str) -> (r: Option<&'a String>)
    ensures
        match r {
            Some(s) => member_str(model_fields(fields@), key@) == Some(s@),
            None => member_str(model_fields(fields@), key@) is None,
        },
{
    match fields_get(fields, key) {
        Some(JsonValue::Str(s)) => Some(s),
        _ => None,
    }
}

/// A deep copy of an object's members.
pub fn clone_fields(fields: &Vec<(String, JsonValue)>) -> (r: Vec<(String, JsonValue)>)
    ensures
        model_fields(r@) == model_fields(fields@),
{
    let mut out: Vec<(String, JsonValue)> = Vec::new();
    let mut i: usize = 0;
    proof {
        lemma_model_fields_all(fields@);
    }
    while i < fields.len()
        invariant
            0 <= i <= fields.len(),
            out@.len() == i,
            forall|k: int|
                0 <= k < i ==> #[trigger] out@[k].0@ == fields@[k].0@ && out@[k].1@ == fields@[k].1@,
        decreases fields.len() - i,
    {
        let c = fields[i].1.deep_clone();
        out.push((fields[i].0.clone(), c));
        i += 1;
    }
    proof {
        lemma_model_fields_all(out@);
        lemma_model_fields_ext(out@, model_fields(fields@));
    }
    out
}

/// `Value::as_i64` on a number's text: an integer (optionally negative)
/// that fits in `i64`.
pub open spec fn i64_of_text(t: Seq<char>) -> Option<int> {
    if t.len() > 0 && t[0] == '-' {
        let d = t.drop_first();
        if d.len() > 0 && crate::text::all_digits(d) && crate::text::digits_value(d) <= 0x8000_0000_0000_0000 {
            Some(-crate::text::digits_value(d))
        } else {
            None
        }
    } else if t.len() > 0 && crate::text::all_digits(t) && crate::text::digits_value(t) <= i64::MAX {
        Some(crate::text::digits_value(t) as int)
    } else {
        None
    }
}

/// `Value::as_i64`.
pub open spec fn as_i64(v: Option<Json>) -> Option<int> {
    match v {
        Some(Json::Number(t)) => i64_of_text(t),
        _ => None,
    }
}

fn digits_u64(d: &Vec<char>, start: usize) -> (r: Option<u64>)
    requires
        start <= d.len(),
    ensures
        match r {
            Some(n) => d@.subrange(start as int, d@.len() as int).len() > 0 && crate::text::all_digits(
                d@.subrange(start as int, d@.len() as int),
            ) && crate::text::digits_value(d@.subrange(start as int, d@.len() as int)) == n,
            None => !(d@.subrange(start as int, d@.len() as int).len() > 0
                && crate::text::all_digits(d@.subrange(start as int, d@.len() as int))
                && crate::text::digits_value(d@.subrange(start as int, d@.len() as int))
                <= 0x8000_0000_0000_0000),
        },
{
    let ghost s = d@.subrange(start as int, d@.len() as int);
    if start == d.len() {
        return None;
    }
    let mut acc: u64 = 0;
    let mut i: usize = start;
    while i < d.len()
        invariant
            start < d.len(),
            start <= i <= d.len(),
            s == d@.subrange(start as int, d@.len() as int),
            forall|k: int| start <= k < i ==> crate::text::is_digit(d@[k]),
            acc as nat == crate::text::digits_value(d@.subrange(start as int, i as int)),
            acc <= 0x8000_0000_0000_0000,
        decreases d.len() - i,
    {
        let c = d[i];
        if !('0' <= c && c <= '9') {
            assert(s[i - start] == c);
            return None;
        }
        let dv = (c as u32 - '0' as u32) as u64;
        let ghost pre = d@.subrange(start as int, i as int);
        let ghost next = d@.subrange(start as int, i + 1);
        proof {
            assert(next.drop_last() =~= pre);
            assert(next.last() == c);
        }
        if acc > (0x8000_0000_0000_0000u64 - dv) / 10 {
            proof {
                assert(acc * 10 + dv > 0x8000_0000_0000_0000) by (nonlinear_arith)
                    requires
                        acc > (0x8000_0000_0000_0000u64 - dv) / 10,
                        dv <= 9,
                ;
                crate::text::lemma_digits_prefix_le(s, i + 1 - start);
                assert(s.subrange(0, i + 1 - start) =~= next);
            }
            return None;
        }
        proof {
            assert(acc * 10 + dv <= 0x8000_0000_0000_0000) by (nonlinear_arith)
                requires
                    acc <= (0x8000_0000_0000_0000u64 - dv) / 10,
                    dv <= 9,
            ;
        }
        acc = acc * 10 + dv;
        i += 1;
    }
    proof {
        assert(d@.subrange(start as int, i as int) =~= s);
    }
    Some(acc)
}

/// `Value::as_i64` on a number's text.
pub fn i64_of_number_text(t: &str) -> (r: Option<i64>)
    ensures
        match r {
            Some(n) => i64_of_text(t@) == Some(n as int),
            None => i64_of_text(t@) is None,
        },
{
    let v = chars_of(t);
    if v.len() > 0 && v[0] == '-' {
        proof {
            assert(v@.subrange(1, v@.len() as int) =~= v@.drop_first());
        }
        match digits_u64(&v, 1) {
            Some(n) => {
                if n <= 0x8000_0000_0000_0000 {
                    if n == 0x8000_0000_0000_0000 {
                        Some(i64::MIN)
                    } else {
                        Some(-(n as i64))
                    }
                } else {
                    None
                }
            },
            None => None,
        }
    } else {
        proof {
            assert(v@.subrange(0, v@.len() as int) =~= v@);
        }
        match digits_u64(&v, 0) {
            Some(n) => {
                if n <= 0x7fff_ffff_ffff_ffff {
                    Some(n as i64)
                } else {
                    None
                }
            },
            None => None,
        }
    }
}

impl JsonValue {
    /// `value.as_i64()`.
    pub fn as_i64(&self) -> (r: Option<i64>)
        ensures
            match r {
                Some(n) => as_i64(Some(self@)) == Some(n as int),
                None => as_i64(Some(self@)) is None,
            },
    {
        match self {
            JsonValue::Number(t) => i64_of_number_text(t.as_str()),
            _ => None,
        }
    }
}

} // verus!
