use vstd::prelude::*;

use crate::json::{clone_json, entry_models, json_model, json_models, JsonModel, JsonValue};
use crate::language::LanguageDefinition;

verus! {

/// The template could not be rendered; the message is the template engine's
/// own account of the fault.
#[derive(Debug)]
pub struct TemplateError {
    pub message: String,
}

/// The texts of a delimiter group, as JSON strings.
pub open spec fn texts_model(xs: Seq<Seq<char>>) -> Seq<JsonModel> {
    xs.map(|i: int, s: Seq<char>| JsonModel::Text(s))
}

/// The delimiter groups of a field, as JSON arrays of strings.
pub open spec fn groups_model(gs: Seq<Seq<Seq<char>>>) -> Seq<JsonModel> {
    gs.map(|i: int, g: Seq<Seq<char>>| JsonModel::Array(texts_model(g)))
}

proof fn lemma_take_step(s: Seq<(Seq<char>, JsonModel)>, n: int)
    requires
        0 <= n < s.len(),
    ensures
        s.take(n + 1) == s.take(n).push(s[n]),
{
    assert(s.take(n + 1) =~= s.take(n).push(s[n]));
}

proof fn lemma_texts_model_step(dv: Seq<Seq<char>>, k: int)
    requires
        0 <= k < dv.len(),
    ensures
        texts_model(dv.take(k + 1)) == texts_model(dv.take(k)).push(JsonModel::Text(dv[k])),
{
    assert forall|i: int| 0 <= i < k + 1 implies texts_model(dv.take(k + 1))[i] == texts_model(
        dv.take(k),
    ).push(JsonModel::Text(dv[k]))[i] by {
        assert(texts_model(dv.take(k + 1))[i] == JsonModel::Text(dv.take(k + 1)[i]));
        if i < k {
            assert(texts_model(dv.take(k))[i] == JsonModel::Text(dv.take(k)[i]));
        }
    }
    assert(texts_model(dv.take(k + 1)) =~= texts_model(dv.take(k)).push(JsonModel::Text(dv[k])));
}

proof fn lemma_groups_model_step(dv: Seq<Seq<Seq<char>>>, k: int)
    requires
        0 <= k < dv.len(),
    ensures
        groups_model(dv.take(k + 1)) == groups_model(dv.take(k)).push(
            JsonModel::Array(texts_model(dv[k])),
        ),
{
    assert forall|i: int| 0 <= i < k + 1 implies groups_model(dv.take(k + 1))[i] == groups_model(
        dv.take(k),
    ).push(JsonModel::Array(texts_model(dv[k])))[i] by {
        assert(groups_model(dv.take(k + 1))[i] == JsonModel::Array(
            texts_model(dv.take(k + 1)[i]),
        ));
        if i < k {
            assert(groups_model(dv.take(k))[i] == JsonModel::Array(texts_model(dv.take(k)[i])));
        }
    }
    assert(groups_model(dv.take(k + 1)) =~= groups_model(dv.take(k)).push(
        JsonModel::Array(texts_model(dv[k])),
    ));
}

/// One language's definition as the document the template consumes: the
/// five named attributes, then every pass-through attribute unchanged.
pub open spec fn lang_model_of(d: LanguageDefinition) -> JsonModel {
    JsonModel::Object(
        seq![
            ("line_comment"@, JsonModel::Array(texts_model(d@.line_comments))),
            ("extensions"@, JsonModel::Array(texts_model(d@.extensions))),
            ("nested"@, JsonModel::Bool(d@.nested)),
            ("quotes"@, JsonModel::Array(groups_model(d@.quotes))),
            ("multi_line"@, JsonModel::Array(groups_model(d@.multi_line))),
        ] + entry_models(d.other@),
    )
}

/// The whole table as the document the template consumes: one `languages`
/// object keyed by language identifier, in table order.
pub open spec fn corpus_model(t: Seq<(String, LanguageDefinition)>) -> JsonModel {
    JsonModel::Object(
        seq![
            (
                "languages"@,
                JsonModel::Object(
                    t.map(|i: int, p: (String, LanguageDefinition)| (p.0@, lang_model_of(p.1))),
                ),
            ),
        ],
    )
}

/// What the template engine renders for a template and a data document, or
/// nothing when it fails; a function of the two alone.
pub uninterp spec fn render_of(template: Seq<char>, data: JsonModel) -> Option<Seq<char>>;

/// Relies on serde_json's value types: rebuilds the library's tree as the
/// engine's document, one variant to one variant; a number parses back from
/// its decimal text, or stands as that text where it no longer parses.
#[verifier::external_body]
fn to_serde(v: &JsonValue) -> (r: serde_json::Value) {
    match v {
        JsonValue::Null => serde_json::Value::Null,
        JsonValue::Bool(b) => serde_json::Value::Bool(*b),
        JsonValue::Number(s) => match s.parse::<serde_json::Number>() {
            Ok(n) => serde_json::Value::Number(n),
            Err(_) => serde_json::Value::String(s.clone()),
        },
        JsonValue::Text(s) => serde_json::Value::String(s.clone()),
        JsonValue::Array(items) => serde_json::Value::Array(items.iter().map(to_serde).collect()),
        JsonValue::Object(entries) => serde_json::Value::Object(
            entries.iter().map(|(k, val)| (k.clone(), to_serde(val))).collect(),
        ),
    }
}

/// Relies on handlebars::Handlebars::render_template, with
/// handlebars::no_escape registered: the rendering is a function of the
/// template text and the data document alone, with implicit text-escaping
/// disabled, so delimiter strings pass through untouched; it fails with the
/// engine's message when the template is malformed or names a missing field.
#[verifier::external_body]
fn render_template_no_escape(template: &str, data: &JsonValue) -> (r: Result<String, String>)
    ensures
        match r {
            Ok(s) => render_of(template@, json_model(*data)) == Some(s@),
            Err(_) => render_of(template@, json_model(*data)) is None,
        },
{
    let value = to_serde(data);
    let mut h = handlebars::Handlebars::new();
    h.register_escape_fn(handlebars::no_escape);
    h.render_template(template, &value).map_err(|e| e.to_string())
}

/// A list of strings as a JSON array value.
fn texts_value(xs: &Vec<String>) -> (r: JsonValue)
    ensures
        json_model(r) == JsonModel::Array(texts_model(xs.deep_view())),
{
    let mut vals: Vec<JsonValue> = Vec::new();
    let mut k: usize = 0;
    proof {
        assert(json_models(vals@) =~= texts_model(xs.deep_view().take(0)));
    }
    while k < xs.len()
        invariant
            0 <= k <= xs@.len(),
            vals@.len() == k,
            json_models(vals@) == texts_model(xs.deep_view().take(k as int)),
        decreases xs@.len() - k,
    {
        let ghost old_vals = vals@;
        vals.push(JsonValue::Text(xs[k].clone()));
        proof {
            assert(vals@.drop_last() =~= old_vals);
            assert(json_model(vals@.last()) == JsonModel::Text(xs.deep_view()[k as int]));
            lemma_texts_model_step(xs.deep_view(), k as int);
        }
        k += 1;
    }
    proof {
        assert(xs.deep_view().take(xs@.len() as int) =~= xs.deep_view());
    }
    JsonValue::Array(vals)
}

/// A delimiter field as a JSON array of arrays.
fn groups_value(gs: &Vec<Vec<String>>) -> (r: JsonValue)
    ensures
        json_model(r) == JsonModel::Array(groups_model(gs.deep_view())),
{
    let mut vals: Vec<JsonValue> = Vec::new();
    let mut k: usize = 0;
    proof {
        assert(json_models(vals@) =~= groups_model(gs.deep_view().take(0)));
    }
    while k < gs.len()
        invariant
            0 <= k <= gs@.len(),
            vals@.len() == k,
            json_models(vals@) == groups_model(gs.deep_view().take(k as int)),
        decreases gs@.len() - k,
    {
        let ghost old_vals = vals@;
        vals.push(texts_value(&gs[k]));
        proof {
            assert(vals@.drop_last() =~= old_vals);
            assert(json_model(vals@.last()) == JsonModel::Array(
                texts_model(gs.deep_view()[k as int]),
            ));
            lemma_groups_model_step(gs.deep_view(), k as int);
        }
        k += 1;
    }
    proof {
        assert(gs.deep_view().take(gs@.len() as int) =~= gs.deep_view());
    }
    JsonValue::Array(vals)
}

/// One language's definition as a JSON object value.
fn language_value(d: &LanguageDefinition) -> (r: JsonValue)
    ensures
        json_model(r) == lang_model_of(*d),
{
    let mut entries: Vec<(String, JsonValue)> = Vec::new();
    entries.push((String::from_str("line_comment"), texts_value(&d.line_comments)));
    entries.push((String::from_str("extensions"), texts_value(&d.extensions)));
    entries.push((String::from_str("nested"), JsonValue::Bool(d.nested)));
    entries.push((String::from_str("quotes"), groups_value(&d.quotes)));
    entries.push((String::from_str("multi_line"), groups_value(&d.multi_line)));
    let ghost five = entries@;
    proof {
        crate::json::lemma_entry_models_index(five);
        crate::json::lemma_entry_models_index(d.other@);
        assert forall|i: int| 0 <= i < 5 implies entry_models(five)[i] == lang_model_of(
            *d,
        )->Object_0.take(5)[i] by {
            assert(entry_models(five)[i] == (five[i].0@, json_model(five[i].1)));
            assert(lang_model_of(*d)->Object_0.take(5)[i] == lang_model_of(*d)->Object_0[i]);
        }
        assert(entry_models(five) =~= lang_model_of(*d)->Object_0.take(5));
    }
    let mut k: usize = 0;
    while k < d.other.len()
        invariant
            0 <= k <= d.other@.len(),
            entries@.len() == k + 5,
            entries@.take(5) == five,
            entry_models(entries@) == lang_model_of(*d)->Object_0.take(5 + k as int),
        decreases d.other@.len() - k,
    {
        let name = d.other[k].0.clone();
        let val = clone_json(&d.other[k].1);
        let ghost old_entries = entries@;
        entries.push((name, val));
        proof {
            crate::json::lemma_entry_models_index(d.other@);
            assert(entries@.drop_last() =~= old_entries);
            assert(entries@.take(5) =~= old_entries.take(5));
            lemma_take_step(lang_model_of(*d)->Object_0, 5 + k as int);
            assert(lang_model_of(*d)->Object_0[5 + k as int] == entry_models(d.other@)[k as int]);
            assert(entry_models(entries@) == entry_models(old_entries).push(
                (entries@.last().0@, json_model(entries@.last().1)),
            ));
            assert((entries@.last().0@, json_model(entries@.last().1)) == entry_models(d.other@)[
                k as int]);
        }
        k += 1;
    }
    proof {
        crate::json::lemma_entry_models_index(d.other@);
        assert(lang_model_of(*d)->Object_0.take(5 + d.other@.len() as int) =~= lang_model_of(
            *d,
        )->Object_0);
    }
    JsonValue::Object(entries)
}

/// The whole table as the data document the template consumes.
fn corpus_value(t: &Vec<(String, LanguageDefinition)>) -> (r: JsonValue)
    ensures
        json_model(r) == corpus_model(t@),
{
    let ghost target = corpus_model(t@)->Object_0[0].1->Object_0;
    let mut langs: Vec<(String, JsonValue)> = Vec::new();
    let mut k: usize = 0;
    proof {
        assert(entry_models(langs@) =~= target.take(0));
    }
    while k < t.len()
        invariant
            0 <= k <= t@.len(),
            langs@.len() == k,
            target == corpus_model(t@)->Object_0[0].1->Object_0,
            target.len() == t@.len(),
            entry_models(langs@) == target.take(k as int),
        decreases t@.len() - k,
    {
        let name = t[k].0.clone();
        let val = language_value(&t[k].1);
        let ghost old_langs = langs@;
        langs.push((name, val));
        proof {
            assert(langs@.drop_last() =~= old_langs);
            lemma_take_step(target, k as int);
            assert(target[k as int] == (t@[k as int].0@, lang_model_of(t@[k as int].1)));
            assert(entry_models(langs@) == entry_models(old_langs).push(
                (langs@.last().0@, json_model(langs@.last().1)),
            ));
            assert((langs@.last().0@, json_model(langs@.last().1)) == target[k as int]);
        }
        k += 1;
    }
    proof {
        assert(target.take(t@.len() as int) =~= target);
    }
    let ghost langs_final = langs@;
    let mut doc: Vec<(String, JsonValue)> = Vec::new();
    doc.push((String::from_str("languages"), JsonValue::Object(langs)));
    proof {
        crate::json::lemma_entry_models_index(doc@);
        assert(entry_models(doc@).len() == 1);
        assert(doc@[0].0@ == "languages"@);
        assert(json_model(doc@[0].1) == JsonModel::Object(entry_models(langs_final)));
        assert(entry_models(doc@)[0] == ("languages"@, JsonModel::Object(target)));
        assert(corpus_model(t@)->Object_0[0] == ("languages"@, JsonModel::Object(target)));
        assert(entry_models(doc@) =~= corpus_model(t@)->Object_0);
    }
    JsonValue::Object(doc)
}

/// Serializes the sorted table through the generic text-templating engine
/// into the target-syntax artifact.  The result is the engine's rendering of
/// the table's document — the five named attributes and every pass-through
/// attribute of each language — and a `TemplateError` comes back exactly
/// when the engine fails on that document.
pub fn render_with_template(template: &str, t: &Vec<(String, LanguageDefinition)>) -> (r: Result<
    String,
    TemplateError,
>)
    ensures
        match r {
            Ok(s) => render_of(template@, corpus_model(t@)) == Some(s@),
            Err(_) => render_of(template@, corpus_model(t@)) is None,
        },
{
    let data = corpus_value(t);
    match render_template_no_escape(template, &data) {
        Ok(s) => Ok(s),
        Err(message) => Err(TemplateError { message }),
    }
}

} // verus!
