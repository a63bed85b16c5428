//! A self-contained model of JSON values.
//!
//! The agent process speaks newline-delimited JSON. The library keeps its own
//! value type so that decoding logic can be specified and verified; the text
//! itself is parsed by `serde_json` behind a trusted wrapper declared here.

use vstd::prelude::*;
use vstd::string::StrSliceExecFns;

verus! {

/// A JSON value held as plain data. A number keeps its literal text, so no
/// floating point enters the library.
pub enum JsonValue {
    Null,
    Bool(bool),
    Num(String),
    Str(String),
    Arr(Vec<JsonValue>),
    Obj(Vec<(String, JsonValue)>),
}

/// The mathematical model of a JSON value.
pub enum JsonV {
    Null,
    Bool(bool),
    Num(Seq<char>),
    Str(Seq<char>),
    Arr(Seq<JsonV>),
    Obj(Seq<(Seq<char>, JsonV)>),
}

/// The model of a single value.
pub open spec fn jv_of(v: JsonValue) -> JsonV
    decreases v,
{
    match v {
        JsonValue::Null => JsonV::Null,
        JsonValue::Bool(b) => JsonV::Bool(b),
        JsonValue::Num(t) => JsonV::Num(t@),
        JsonValue::Str(t) => JsonV::Str(t@),
        JsonValue::Arr(items) => JsonV::Arr(jv_seq(items@)),
        JsonValue::Obj(fields) => JsonV::Obj(jv_fields(fields@)),
    }
}

/// The model of a sequence of array elements.
pub open spec fn jv_seq(s: Seq<JsonValue>) -> Seq<JsonV>
    decreases s,
{
    if s.len() == 0 {
        Seq::empty()
    } else {
        seq![jv_of(s[0])] + jv_seq(s.subrange(1, s.len() as int))
    }
}

/// The model of a sequence of object fields.
pub open spec fn jv_fields(s: Seq<(String, JsonValue)>) -> Seq<(Seq<char>, JsonV)>
    decreases s,
{
    if s.len() == 0 {
        Seq::empty()
    } else {
        seq![(s[0].0@, jv_of(s[0].1))] + jv_fields(s.subrange(1, s.len() as int))
    }
}

impl View for JsonValue {
    type V = JsonV;

    open spec fn view(&self) -> JsonV {
        jv_of(*self)
    }
}

/// The element models line up with the elements.
pub proof fn lemma_jv_seq(s: Seq<JsonValue>)
    ensures
        jv_seq(s).len() == s.len(),
        forall|i: int| 0 <= i < s.len() ==> jv_seq(s)[i] == jv_of(s[i]),
    decreases s,
{
    if s.len() > 0 {
        lemma_jv_seq(s.subrange(1, s.len() as int));
    }
}

/// The field models line up with the fields.
pub proof fn lemma_jv_fields(s: Seq<(String, JsonValue)>)
    ensures
        jv_fields(s).len() == s.len(),
        forall|i: int| 0 <= i < s.len() ==> jv_fields(s)[i] == (s[i].0@, jv_of(s[i].1)),
    decreases s,
{
    if s.len() > 0 {
        lemma_jv_fields(s.subrange(1, s.len() as int));
    }
}

/// What parsing a text as JSON yields, carried into the library's own value
/// type: `None` where the text is not valid JSON. Object keys come back
/// sorted and deduplicated, numbers keep their printed text, so the result is
/// a function of the text alone.
pub uninterp spec fn json_of(s: Seq<char>) -> Option<JsonV>;

/// Relies on `serde_json::from_str::<serde_json::Value>`: parses one JSON
/// text, failing exactly on texts that are not valid JSON; the parse is a
/// function of the text alone (the default `Map` is ordered by key and keeps
/// one entry per key, and a `Number` prints deterministically).
#[verifier::external_body]
pub(crate) fn parse_json(text: &str) -> (r: Option<JsonValue>)
    ensures
        r is Some <==> json_of(text@) is Some,
        r matches Some(v) ==> json_of(text@) == Some(v@),
{
    serde_json::from_str::<serde_json::Value>(text).ok().map(value_into)
}

#[verifier::external_type_specification]
#[verifier::external_body]
pub struct ExValue(serde_json::Value);

/// Relies on `serde_json::Value`: carries each variant of a parsed tree over
/// into the library's value type, one arm per variant; a number becomes its
/// printed text.
#[verifier::external_body]
fn value_into(v: serde_json::Value) -> JsonValue {
    match v {
        serde_json::Value::Null => JsonValue::Null,
        serde_json::Value::Bool(b) => JsonValue::Bool(b),
        serde_json::Value::Number(n) => JsonValue::Num(n.to_string()),
        serde_json::Value::String(s) => JsonValue::Str(s),
        serde_json::Value::Array(items) => {
            JsonValue::Arr(items.into_iter().map(value_into).collect())
        },
        serde_json::Value::Object(fields) => {
            JsonValue::Obj(fields.into_iter().map(|(k, f)| (k, value_into(f))).collect())
        },
    }
}

/// The value under the first occurrence of `key`, if any.
pub open spec fn field_of(fields: Seq<(Seq<char>, JsonV)>, key: Seq<char>) -> Option<JsonV>
    decreases fields,
{
    if fields.len() == 0 {
        None
    } else if fields[0].0 == key {
        Some(fields[0].1)
    } else {
        field_of(fields.subrange(1, fields.len() as int), key)
    }
}

/// The fields whose keys are not in `keys`, in order.
pub open spec fn fields_without(
    fields: Seq<(Seq<char>, JsonV)>,
    keys: Seq<Seq<char>>,
) -> Seq<(Seq<char>, JsonV)> {
    fields.filter(|kv: (Seq<char>, JsonV)| !keys.contains(kv.0))
}

/// A lookup scans left to right across a concatenation.
pub proof fn lemma_field_of_concat(
    a: Seq<(Seq<char>, JsonV)>,
    b: Seq<(Seq<char>, JsonV)>,
    key: Seq<char>,
)
    ensures
        field_of(a + b, key) == (if field_of(a, key) is Some {
            field_of(a, key)
        } else {
            field_of(b, key)
        }),
    decreases a,
{
    if a.len() == 0 {
        assert(a + b =~= b);
    } else {
        assert((a + b)[0] == a[0]);
        assert((a + b).subrange(1, (a + b).len() as int) =~= a.subrange(1, a.len() as int) + b);
        lemma_field_of_concat(a.subrange(1, a.len() as int), b, key);
    }
}

/// A lookup scans left to right: pushing a field on the right changes the
/// result only where no earlier field had the key.
pub proof fn lemma_field_of_push(
    fields: Seq<(Seq<char>, JsonV)>,
    e: (Seq<char>, JsonV),
    key: Seq<char>,
)
    ensures
        field_of(fields.push(e), key) == (if field_of(fields, key) is Some {
            field_of(fields, key)
        } else if e.0 == key {
            Some(e.1)
        } else {
            None::<JsonV>
        }),
{
    assert(fields.push(e) =~= fields + seq![e]);
    lemma_field_of_concat(fields, seq![e], key);
    assert(field_of(seq![e], key) == (if e.0 == key {
        Some(e.1)
    } else {
        None::<JsonV>
    })) by {
        assert(seq![e][0] == e);
        assert(seq![e].subrange(1, 1) =~= Seq::<(Seq<char>, JsonV)>::empty());
        assert(field_of(Seq::<(Seq<char>, JsonV)>::empty(), key) is None);
    }
}

/// The model of a field list with one more field on the right.
pub proof fn lemma_jv_fields_push(s: Seq<(String, JsonValue)>, e: (String, JsonValue))
    ensures
        jv_fields(s.push(e)) == jv_fields(s).push((e.0@, jv_of(e.1))),
{
    lemma_jv_fields(s);
    lemma_jv_fields(s.push(e));
    assert(jv_fields(s.push(e)) =~= jv_fields(s).push((e.0@, jv_of(e.1))));
}

/// The model of an element list with one more element on the right.
pub proof fn lemma_jv_seq_push(s: Seq<JsonValue>, e: JsonValue)
    ensures
        jv_seq(s.push(e)) == jv_seq(s).push(jv_of(e)),
{
    lemma_jv_seq(s);
    lemma_jv_seq(s.push(e));
    assert(jv_seq(s.push(e)) =~= jv_seq(s).push(jv_of(e)));
}

impl JsonValue {
    /// A deep copy with the same model.
    #[verifier::loop_isolation(false)]
    pub fn duplicate(&self) -> (r: JsonValue)
        ensures
            r@ == self@,
        decreases self,
    {
        match self {
            JsonValue::Null => JsonValue::Null,
            JsonValue::Bool(b) => JsonValue::Bool(*b),
            JsonValue::Num(t) => JsonValue::Num(t.clone()),
            JsonValue::Str(t) => JsonValue::Str(t.clone()),
            JsonValue::Arr(items) => {
                let mut out: Vec<JsonValue> = Vec::new();
                let mut i: usize = 0;
                while i < items.len()
                    invariant
                        i <= items@.len(),
                        out@.len() == i,
                        forall|j: int| 0 <= j < i ==> jv_of(out@[j]) == jv_of(items@[j]),
                    decreases items@.len() - i,
                {
                    proof {
                        assert(decreases_to!(*self => self->Arr_0));
                        assert(self->Arr_0 == *items);
                        assert(decreases_to!(*items => items@));
                        assert(decreases_to!(items@ => items@[i as int]));
                    }
                    let d = items[i].duplicate();
                    out.push(d);
                    i += 1;
                }
                proof {
                    lemma_jv_seq(out@);
                    lemma_jv_seq(items@);
                    assert(jv_seq(out@) =~= jv_seq(items@));
                }
                JsonValue::Arr(out)
            },
            JsonValue::Obj(fields) => {
                let mut out: Vec<(String, JsonValue)> = Vec::new();
                let mut i: usize = 0;
                while i < fields.len()
                    invariant
                        i <= fields@.len(),
                        out@.len() == i,
                        forall|j: int| 0 <= j < i ==> out@[j].0@ == fields@[j].0@ && jv_of(
                            out@[j].1,
                        ) == jv_of(fields@[j].1),
                    decreases fields@.len() - i,
                {
                    proof {
                        assert(decreases_to!(*self => self->Obj_0));
                        assert(self->Obj_0 == *fields);
                        assert(decreases_to!(*fields => fields@));
                        assert(decreases_to!(fields@ => fields@[i as int]));
                        assert(decreases_to!(fields@[i as int] => fields@[i as int].1));
                    }
                    let d = fields[i].1.duplicate();
                    let key = fields[i].0.clone();
                    out.push((key, d));
                    i += 1;
                }
                proof {
                    lemma_jv_fields(out@);
                    lemma_jv_fields(fields@);
                    assert(jv_fields(out@) =~= jv_fields(fields@));
                }
                JsonValue::Obj(out)
            },
        }
    }
}

/// Appends a deep copy of every field of `src` to `out`, in order.
#[verifier::loop_isolation(false)]
pub fn append_dup_fields(out: &mut Vec<(String, JsonValue)>, src: &Vec<(String, JsonValue)>)
    ensures
        jv_fields(final(out)@) == jv_fields(old(out)@) + jv_fields(src@),
{
    let ghost base = jv_fields(out@);
    proof {
        lemma_jv_fields(src@);
        assert(jv_fields(src@).take(0) =~= Seq::<(Seq<char>, JsonV)>::empty());
        assert(base + jv_fields(src@).take(0) =~= base);
    }
    let mut i: usize = 0;
    while i < src.len()
        invariant
            i <= src@.len(),
            jv_fields(out@) == base + jv_fields(src@).take(i as int),
        decreases src@.len() - i,
    {
        let k = src[i].0.clone();
        let v = src[i].1.duplicate();
        proof {
            lemma_jv_fields_push(out@, (k, v));
            assert(jv_fields(src@).take(i as int + 1) =~= jv_fields(src@).take(i as int).push(
                jv_fields(src@)[i as int],
            ));
            assert((base + jv_fields(src@).take(i as int)).push((k@, jv_of(v))) =~= base
                + jv_fields(src@).take(i as int + 1));
        }
        out.push((k, v));
        i += 1;
    }
    proof {
        assert(jv_fields(src@).take(src@.len() as int) =~= jv_fields(src@));
    }
}

/// The first field with the given key, if any, by reference.
pub fn obj_field<'a>(fields: &'a Vec<(String, JsonValue)>, key: &str) -> (r: Option<
    &'a JsonValue,
>)
    ensures
        r is Some <==> field_of(jv_fields(fields@), key@) is Some,
        r matches Some(v) ==> field_of(jv_fields(fields@), key@) == Some(v@),
{
    let ghost fv = jv_fields(fields@);
    proof {
        lemma_jv_fields(fields@);
        assert(fv.skip(0) =~= fv);
    }
    let mut i: usize = 0;
    while i < fields.len()
        invariant
            fv == jv_fields(fields@),
            fv.len() == fields@.len(),
            forall|j: int| 0 <= j < fv.len() ==> fv[j] == (fields@[j].0@, jv_of(fields@[j].1)),
            i <= fields@.len(),
            field_of(fv, key@) == field_of(fv.skip(i as int), key@),
        decreases fields@.len() - i,
    {
        proof {
            assert(fv.skip(i as int)[0] == fv[i as int]);
            assert(fv.skip(i as int).subrange(1, fv.skip(i as int).len() as int) =~= fv.skip(
                i as int + 1,
            ));
        }
        if str_eq(fields[i].0.as_str(), key) {
            return Some(&fields[i].1);
        }
        i += 1;
    }
    proof {
        assert(fv.skip(fields@.len() as int) =~= Seq::<(Seq<char>, JsonV)>::empty());
    }
    None
}

/// Relies on `String::push`: appends one character to the string.
pub assume_specification[ String::push ](s: &mut String, ch: char)
    ensures
        final(s)@ == old(s)@.push(ch),
;

/// Character-for-character equality of two string slices.
pub fn str_eq(a: &str, b: &str) -> (r: bool)
    ensures
        r == (a@ == b@),
{
    let alen = a.unicode_len();
    let blen = b.unicode_len();
    if alen != blen {
        return false;
    }
    let mut i: usize = 0;
    while i < alen
        invariant
            alen == a@.len(),
            blen == b@.len(),
            alen == blen,
            i <= alen,
            forall|j: int| 0 <= j < i ==> a@[j] == b@[j],
        decreases alen - i,
    {
        if a.get_char(i) != b.get_char(i) {
            return false;
        }
        i += 1;
    }
    proof {
        assert(a@ =~= b@);
    }
    true
}

} // verus!
