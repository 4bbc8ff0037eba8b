use vstd::prelude::*;

verus! {

broadcast use vstd::std_specs::vec::group_vec_axioms;

#[verifier::external_type_specification]
#[verifier::external_body]
pub struct ExValue(serde_json::Value);

/// A JSON document as a tree of plain values.  A number is carried as its
/// decimal text, so nothing is lost and nothing is floating point; an
/// object's entries stand in the order the parser hands them out.
#[derive(Debug)]
pub enum JsonValue {
    Null,
    Bool(bool),
    Number(String),
    Text(String),
    Array(Vec<JsonValue>),
    Object(Vec<(String, JsonValue)>),
}

/// Mathematical image of a `JsonValue`: every string is a character
/// sequence, every list a sequence.
pub ghost enum JsonModel {
    Null,
    Bool(bool),
    Number(Seq<char>),
    Text(Seq<char>),
    Array(Seq<JsonModel>),
    Object(Seq<(Seq<char>, JsonModel)>),
}

/// The model of a JSON tree.
pub open spec fn json_model(v: JsonValue) -> JsonModel
    decreases v,
{
    match v {
        JsonValue::Null => JsonModel::Null,
        JsonValue::Bool(b) => JsonModel::Bool(b),
        JsonValue::Number(s) => JsonModel::Number(s@),
        JsonValue::Text(s) => JsonModel::Text(s@),
        JsonValue::Array(items) => JsonModel::Array(json_models(items@)),
        JsonValue::Object(entries) => JsonModel::Object(entry_models(entries@)),
    }
}

/// The models of a list of JSON trees, in order.
pub open spec fn json_models(items: Seq<JsonValue>) -> Seq<JsonModel>
    decreases items,
{
    if items.len() == 0 {
        Seq::<JsonModel>::empty()
    } else {
        json_models(items.drop_last()).push(json_model(items.last()))
    }
}

/// The models of an object's entries, in order.
pub open spec fn entry_models(entries: Seq<(String, JsonValue)>) -> Seq<(Seq<char>, JsonModel)>
    decreases entries,
{
    if entries.len() == 0 {
        Seq::<(Seq<char>, JsonModel)>::empty()
    } else {
        entry_models(entries.drop_last()).push(
            (entries.last().0@, json_model(entries.last().1)),
        )
    }
}

pub proof fn lemma_json_models_index(items: Seq<JsonValue>)
    ensures
        json_models(items).len() == items.len(),
        forall|i: int|
            0 <= i < items.len() ==> json_models(items)[i] == json_model(#[trigger] items[i]),
    decreases items,
{
    if items.len() > 0 {
        lemma_json_models_index(items.drop_last());
        assert forall|i: int| 0 <= i < items.len() implies json_models(items)[i] == json_model(
            items[i],
        ) by {
            if i < items.len() - 1 {
                assert(json_models(items)[i] == json_models(items.drop_last())[i]);
                assert(items.drop_last()[i] == items[i]);
            } else {
                assert(json_models(items)[i] == json_model(items.last()));
            }
        }
    }
}

pub proof fn lemma_entry_models_index(entries: Seq<(String, JsonValue)>)
    ensures
        entry_models(entries).len() == entries.len(),
        forall|i: int|
            0 <= i < entries.len() ==> entry_models(entries)[i] == ((#[trigger] entries[i]).0@,
            json_model(entries[i].1)),
    decreases entries,
{
    if entries.len() > 0 {
        lemma_entry_models_index(entries.drop_last());
        assert forall|i: int| 0 <= i < entries.len() implies entry_models(entries)[i] == (
            entries[i].0@,
            json_model(entries[i].1),
        ) by {
            if i < entries.len() - 1 {
                assert(entry_models(entries)[i] == entry_models(entries.drop_last())[i]);
                assert(entries.drop_last()[i] == entries[i]);
            } else {
                assert(entry_models(entries)[i] == (entries.last().0@, json_model(
                    entries.last().1,
                )));
            }
        }
    }
}

/// A tree and its model have the same variant, field for field.
pub proof fn lemma_model_variants(v: JsonValue)
    ensures
        (json_model(v) is Null) == (v is Null),
        (json_model(v) is Bool) == (v is Bool),
        (json_model(v) is Number) == (v is Number),
        (json_model(v) is Text) == (v is Text),
        (json_model(v) is Array) == (v is Array),
        (json_model(v) is Object) == (v is Object),
{
}

/// The value under the first entry of an object that carries `key`.
pub open spec fn obj_get(entries: Seq<(Seq<char>, JsonModel)>, key: Seq<char>) -> Option<JsonModel>
    decreases entries.len(),
{
    if entries.len() == 0 {
        None
    } else if entries.first().0 == key {
        Some(entries.first().1)
    } else {
        obj_get(entries.drop_first(), key)
    }
}

pub proof fn lemma_obj_get_some(entries: Seq<(Seq<char>, JsonModel)>, key: Seq<char>, m: int)
    requires
        0 <= m < entries.len(),
        entries[m].0 == key,
        forall|j: int| 0 <= j < m ==> (#[trigger] entries[j]).0 != key,
    ensures
        obj_get(entries, key) == Some(entries[m].1),
    decreases m,
{
    if m > 0 {
        lemma_obj_get_some(entries.drop_first(), key, m - 1);
    }
}

pub proof fn lemma_obj_get_none(entries: Seq<(Seq<char>, JsonModel)>, key: Seq<char>)
    requires
        forall|j: int| 0 <= j < entries.len() ==> (#[trigger] entries[j]).0 != key,
    ensures
        obj_get(entries, key) is None,
    decreases entries.len(),
{
    if entries.len() > 0 {
        lemma_obj_get_none(entries.drop_first(), key);
    }
}

/// Whether two texts hold the same characters.
pub fn str_eq(a: &str, b: &str) -> (r: bool)
    ensures
        r == (a@ == b@),
{
    let alen = a.unicode_len();
    let blen = b.unicode_len();
    if alen != blen {
        return false;
    }
    let mut k: usize = 0;
    while k < alen
        invariant
            0 <= k <= alen,
            alen == a@.len(),
            alen == b@.len(),
            forall|j: int| 0 <= j < k ==> a@[j] == b@[j],
        decreases alen - k,
    {
        if a.get_char(k) != b.get_char(k) {
            return false;
        }
        k += 1;
    }
    proof {
        assert(a@ =~= b@);
    }
    true
}

/// Finds the first entry of an object that carries `key`.
pub fn obj_find<'a>(entries: &'a Vec<(String, JsonValue)>, key: &str) -> (r: Option<
    &'a JsonValue,
>)
    ensures
        match r {
            Some(v) => obj_get(entry_models(entries@), key@) == Some(json_model(*v)),
            None => obj_get(entry_models(entries@), key@) is None,
        },
{
    proof {
        lemma_entry_models_index(entries@);
    }
    let ghost ms = entry_models(entries@);
    let mut k: usize = 0;
    while k < entries.len()
        invariant
            0 <= k <= entries@.len(),
            ms == entry_models(entries@),
            ms.len() == entries@.len(),
            forall|i: int|
                0 <= i < entries@.len() ==> ms[i] == ((#[trigger] entries@[i]).0@, json_model(
                    entries@[i].1,
                )),
            forall|j: int| 0 <= j < k ==> (#[trigger] ms[j]).0 != key@,
        decreases entries@.len() - k,
    {
        if str_eq(entries[k].0.as_str(), key) {
            proof {
                lemma_obj_get_some(ms, key@, k as int);
            }
            return Some(&entries[k].1);
        }
        k += 1;
    }
    proof {
        lemma_obj_get_none(ms, key@);
    }
    None
}

/// Copies a JSON tree; the copy has the same model.
pub fn clone_json(v: &JsonValue) -> (r: JsonValue)
    ensures
        json_model(r) == json_model(*v),
    decreases *v,
{
    match v {
        JsonValue::Null => JsonValue::Null,
        JsonValue::Bool(b) => JsonValue::Bool(*b),
        JsonValue::Number(s) => JsonValue::Number(s.clone()),
        JsonValue::Text(s) => JsonValue::Text(s.clone()),
        JsonValue::Array(items) => JsonValue::Array(clone_list(items)),
        JsonValue::Object(entries) => JsonValue::Object(clone_entries(entries)),
    }
}

/// Copies a list of JSON trees, keeping each model.
fn clone_list(items: &Vec<JsonValue>) -> (r: Vec<JsonValue>)
    ensures
        json_models(r@) == json_models(items@),
    decreases *items,
{
    let mut out: Vec<JsonValue> = Vec::new();
    let mut k: usize = 0;
    proof {
        assert(json_models(out@) =~= json_models(items@.take(0)));
    }
    while k < items.len()
        invariant
            0 <= k <= items@.len(),
            json_models(out@) == json_models(items@.take(k as int)),
            out@.len() == k,
        decreases items@.len() - k,
    {
        proof {
            assert(decreases_to!(*items => items[k as int]));
        }
        let c = clone_json(&items[k]);
        let ghost old_out = out@;
        out.push(c);
        proof {
            assert(out@.drop_last() =~= old_out);
            assert(items@.take(k + 1).drop_last() =~= items@.take(k as int));
            assert(items@.take(k + 1).last() == items@[k as int]);
        }
        k += 1;
    }
    proof {
        assert(items@.take(items@.len() as int) =~= items@);
    }
    out
}

/// Copies an object's entries, keeping each key and model.
fn clone_entries(entries: &Vec<(String, JsonValue)>) -> (r: Vec<(String, JsonValue)>)
    ensures
        entry_models(r@) == entry_models(entries@),
    decreases *entries,
{
    let mut out: Vec<(String, JsonValue)> = Vec::new();
    let mut k: usize = 0;
    proof {
        assert(entry_models(out@) =~= entry_models(entries@.take(0)));
    }
    while k < entries.len()
        invariant
            0 <= k <= entries@.len(),
            entry_models(out@) == entry_models(entries@.take(k as int)),
            out@.len() == k,
        decreases entries@.len() - k,
    {
        proof {
            assert(decreases_to!(*entries => entries[k as int]));
        }
        let name = entries[k].0.clone();
        let c = clone_json(&entries[k].1);
        let ghost old_out = out@;
        out.push((name, c));
        proof {
            assert(out@.drop_last() =~= old_out);
            assert(entries@.take(k + 1).drop_last() =~= entries@.take(k as int));
            assert(entries@.take(k + 1).last() == entries@[k as int]);
        }
        k += 1;
    }
    proof {
        assert(entries@.take(entries@.len() as int) =~= entries@);
    }
    out
}

/// The JSON document a text parses to, or nothing when the text is not
/// valid JSON.  The outcome depends on the text alone.
pub uninterp spec fn json_doc_of(text: Seq<char>) -> Option<JsonModel>;

/// Relies on serde_json::from_str: whether the text parses, and the
/// document it parses to, are functions of the text alone.  Object entries
/// come out in the iteration order of the parser's map, which is sorted by
/// key under the configuration built here.
#[verifier::external_body]
pub(crate) fn json_parse(text: &str) -> (r: Option<JsonValue>)
    ensures
        match r {
            Some(v) => json_doc_of(text@) == Some(json_model(v)),
            None => json_doc_of(text@) is None,
        },
{
    serde_json::from_str::<serde_json::Value>(text).ok().map(from_serde)
}

/// Relies on serde_json::Value's variants: rebuilds the parsed document as
/// the library's own tree, one variant to one variant, a number as its
/// decimal text.
#[verifier::external_body]
fn from_serde(v: serde_json::Value) -> (r: JsonValue) {
    match v {
        serde_json::Value::Null => JsonValue::Null,
        serde_json::Value::Bool(b) => JsonValue::Bool(b),
        serde_json::Value::Number(n) => JsonValue::Number(n.to_string()),
        serde_json::Value::String(s) => JsonValue::Text(s),
        serde_json::Value::Array(a) => JsonValue::Array(a.into_iter().map(from_serde).collect()),
        serde_json::Value::Object(m) => JsonValue::Object(
            m.into_iter().map(|(k, val)| (k, from_serde(val))).collect(),
        ),
    }
}

} // verus!
