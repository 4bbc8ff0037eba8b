use vstd::prelude::*;

use crate::json::{
    clone_json, entry_models, json_doc_of, json_model, json_models, json_parse,
    lemma_entry_models_index, lemma_json_models_index, obj_find, obj_get, str_eq, JsonModel,
    JsonValue,
};
use crate::language::{LangDefView, LanguageDefinition};

verus! {

/// Why a corpus could not be loaded: the text is not valid structured data
/// at all, or an expected field is absent or has the wrong shape.
#[derive(Clone, Copy, PartialEq, Eq, Structural, Debug)]
pub enum LoadError {
    CorpusMalformed,
    SchemaViolation,
}

/// Every element is a JSON string.
pub open spec fn texts_ok(items: Seq<JsonModel>) -> bool {
    forall|i: int| 0 <= i < items.len() ==> (#[trigger] items[i]) is Text
}

/// The texts of a sequence of JSON strings.
pub open spec fn text_seqs(items: Seq<JsonModel>) -> Seq<Seq<char>> {
    items.map(|i: int, m: JsonModel| m->Text_0)
}

/// A well-shaped delimiter group: a non-empty JSON array of strings.
pub open spec fn group_ok(m: JsonModel) -> bool {
    m is Array && texts_ok(m->Array_0) && m->Array_0.len() > 0
}

/// A well-shaped delimiter field: a JSON array of well-shaped groups.
pub open spec fn groups_field_ok(m: JsonModel) -> bool {
    m is Array && forall|i: int|
        0 <= i < m->Array_0.len() ==> group_ok(#[trigger] m->Array_0[i])
}

/// The delimiter groups a well-shaped field holds.
pub open spec fn groups_field_view(m: JsonModel) -> Seq<Seq<Seq<char>>> {
    m->Array_0.map(|i: int, g: JsonModel| text_seqs(g->Array_0))
}

/// A well-shaped list field: a JSON array of strings.
pub open spec fn texts_field_ok(m: JsonModel) -> bool {
    m is Array && texts_ok(m->Array_0)
}

/// The keys the loader reads into named attributes; every other key passes
/// through unmodified.
pub open spec fn known_key(k: Seq<char>) -> bool {
    k == "quotes"@ || k == "multi_line"@ || k == "line_comment"@ || k == "extensions"@ || k
        == "nested"@
}

/// The entries of an object that are not named attributes, in order.
pub open spec fn others_of(entries: Seq<(Seq<char>, JsonModel)>) -> Seq<(Seq<char>, JsonModel)>
    decreases entries.len(),
{
    if entries.len() == 0 {
        Seq::<(Seq<char>, JsonModel)>::empty()
    } else {
        let rest = others_of(entries.drop_last());
        if known_key(entries.last().0) {
            rest
        } else {
            rest.push(entries.last())
        }
    }
}

/// A well-shaped language definition: an object whose `quotes` and
/// `multi_line` fields are present and well shaped, and whose descriptive
/// fields, where present, have the expected shapes.
pub open spec fn lang_ok(m: JsonModel) -> bool {
    &&& m is Object
    &&& (match obj_get(m->Object_0, "quotes"@) {
        Some(q) => groups_field_ok(q),
        None => false,
    })
    &&& (match obj_get(m->Object_0, "multi_line"@) {
        Some(q) => groups_field_ok(q),
        None => false,
    })
    &&& (match obj_get(m->Object_0, "line_comment"@) {
        Some(l) => texts_field_ok(l),
        None => true,
    })
    &&& (match obj_get(m->Object_0, "extensions"@) {
        Some(l) => texts_field_ok(l),
        None => true,
    })
    &&& (match obj_get(m->Object_0, "nested"@) {
        Some(b) => b is Bool,
        None => true,
    })
}

/// What a well-shaped language definition loads to.
pub open spec fn lang_view(m: JsonModel) -> LangDefView {
    LangDefView {
        line_comments: match obj_get(m->Object_0, "line_comment"@) {
            Some(l) => text_seqs(l->Array_0),
            None => Seq::<Seq<char>>::empty(),
        },
        extensions: match obj_get(m->Object_0, "extensions"@) {
            Some(l) => text_seqs(l->Array_0),
            None => Seq::<Seq<char>>::empty(),
        },
        nested: match obj_get(m->Object_0, "nested"@) {
            Some(b) => b->Bool_0,
            None => false,
        },
        quotes: groups_field_view(obj_get(m->Object_0, "quotes"@)->Some_0),
        multi_line: groups_field_view(obj_get(m->Object_0, "multi_line"@)->Some_0),
    }
}

/// The attributes a language definition passes through unmodified.
pub open spec fn lang_other(m: JsonModel) -> Seq<(Seq<char>, JsonModel)> {
    others_of(m->Object_0)
}

/// A well-shaped corpus: an object whose `languages` field is an object of
/// well-shaped language definitions.
pub open spec fn doc_ok(doc: JsonModel) -> bool {
    &&& doc is Object
    &&& (match obj_get(doc->Object_0, "languages"@) {
        Some(langs) => langs is Object && forall|i: int|
            0 <= i < langs->Object_0.len() ==> lang_ok((#[trigger] langs->Object_0[i]).1),
        None => false,
    })
}

/// A well-shaped corpus's language entries, in the order the parser hands
/// them out.
pub open spec fn doc_langs(doc: JsonModel) -> Seq<(Seq<char>, JsonModel)> {
    obj_get(doc->Object_0, "languages"@)->Some_0->Object_0
}

/// Reads an array of strings.
fn load_texts_field(v: &JsonValue) -> (r: Result<Vec<String>, LoadError>)
    ensures
        match r {
            Ok(xs) => texts_field_ok(json_model(*v)) && xs.deep_view() == text_seqs(
                json_model(*v)->Array_0,
            ),
            Err(e) => e == LoadError::SchemaViolation && !texts_field_ok(json_model(*v)),
        },
{
    let items = match v {
        JsonValue::Array(items) => items,
        _ => {
            proof {
                crate::json::lemma_model_variants(*v);
            }
            return Err(LoadError::SchemaViolation);
        },
    };
    proof {
        assert(json_model(*v) == JsonModel::Array(json_models(items@)));
        lemma_json_models_index(items@);
    }
    let ghost ms = json_models(items@);
    let mut out: Vec<String> = Vec::new();
    let mut k: usize = 0;
    while k < items.len()
        invariant
            0 <= k <= items@.len(),
            ms == json_models(items@),
            ms.len() == items@.len(),
            json_model(*v) == JsonModel::Array(ms),
            forall|i: int|
                0 <= i < items@.len() ==> ms[i] == json_model(#[trigger] items@[i]),
            out@.len() == k,
            forall|i: int|
                0 <= i < k ==> (#[trigger] ms[i]) is Text && out@[i]@ == ms[i]->Text_0,
        decreases items@.len() - k,
    {
        let text = match &items[k] {
            JsonValue::Text(s) => s.clone(),
            _ => {
                proof {
                    assert(ms[k as int] == json_model(items@[k as int]));
                    crate::json::lemma_model_variants(items@[k as int]);
                    assert(!((ms[k as int]) is Text));
                }
                return Err(LoadError::SchemaViolation);
            },
        };
        out.push(text);
        k += 1;
    }
    proof {
        assert forall|i: int| 0 <= i < ms.len() implies out.deep_view()[i] == text_seqs(ms)[i] by {
            assert(out@[i]@ == ms[i]->Text_0);
        }
        assert(out.deep_view() =~= text_seqs(ms));
    }
    Ok(out)
}

/// Reads a delimiter field: an array of non-empty arrays of strings.
fn load_groups_field(v: &JsonValue) -> (r: Result<Vec<Vec<String>>, LoadError>)
    ensures
        match r {
            Ok(gs) => groups_field_ok(json_model(*v)) && gs.deep_view() == groups_field_view(
                json_model(*v),
            ),
            Err(e) => e == LoadError::SchemaViolation && !groups_field_ok(json_model(*v)),
        },
{
    let items = match v {
        JsonValue::Array(items) => items,
        _ => {
            proof {
                crate::json::lemma_model_variants(*v);
            }
            return Err(LoadError::SchemaViolation);
        },
    };
    proof {
        assert(json_model(*v) == JsonModel::Array(json_models(items@)));
        lemma_json_models_index(items@);
    }
    let ghost ms = json_models(items@);
    let mut out: Vec<Vec<String>> = Vec::new();
    let mut k: usize = 0;
    while k < items.len()
        invariant
            0 <= k <= items@.len(),
            ms == json_models(items@),
            ms.len() == items@.len(),
            json_model(*v) == JsonModel::Array(ms),
            forall|i: int|
                0 <= i < items@.len() ==> ms[i] == json_model(#[trigger] items@[i]),
            out@.len() == k,
            forall|i: int|
                0 <= i < k ==> group_ok(#[trigger] ms[i]) && out@[i].deep_view() == text_seqs(
                    ms[i]->Array_0,
                ),
        decreases items@.len() - k,
    {
        let members = match load_texts_field(&items[k]) {
            Ok(m) => m,
            Err(e) => {
                proof {
                    assert(ms[k as int] == json_model(items@[k as int]));
                    assert(!group_ok(json_model(*v)->Array_0[k as int]));
                    assert(!groups_field_ok(json_model(*v)));
                }
                return Err(e);
            },
        };
        if members.len() == 0 {
            proof {
                assert(ms[k as int] == json_model(items@[k as int]));
                assert(members.deep_view().len() == 0);
                assert(ms[k as int]->Array_0.len() == 0);
                assert(!group_ok(json_model(*v)->Array_0[k as int]));
                assert(!groups_field_ok(json_model(*v)));
            }
            return Err(LoadError::SchemaViolation);
        }
        out.push(members);
        proof {
            assert(ms[k as int] == json_model(items@[k as int]));
            assert(out@.last() == members);
            assert(members.deep_view().len() > 0);
            assert(group_ok(ms[k as int]));
        }
        k += 1;
    }
    proof {
        assert forall|i: int| 0 <= i < ms.len() implies out.deep_view()[i] == groups_field_view(
            json_model(*v),
        )[i] by {
            assert(out@[i].deep_view() == text_seqs(ms[i]->Array_0));
        }
        assert(out.deep_view() =~= groups_field_view(json_model(*v)));
    }
    Ok(out)
}

/// Reads one language's definition.  The two delimiter fields must be
/// present and well shaped; the descriptive attributes fall back to empty
/// or false when absent; every unrecognized attribute passes through.
fn load_language(v: &JsonValue) -> (r: Result<LanguageDefinition, LoadError>)
    ensures
        match r {
            Ok(d) => lang_ok(json_model(*v)) && d@ == lang_view(json_model(*v)) && entry_models(
                d.other@,
            ) == lang_other(json_model(*v)),
            Err(e) => e == LoadError::SchemaViolation && !lang_ok(json_model(*v)),
        },
{
    let entries = match v {
        JsonValue::Object(entries) => entries,
        _ => {
            proof {
                crate::json::lemma_model_variants(*v);
            }
            return Err(LoadError::SchemaViolation);
        },
    };
    proof {
        assert(json_model(*v) == JsonModel::Object(entry_models(entries@)));
    }
    let quotes = match obj_find(entries, "quotes") {
        Some(f) => match load_groups_field(f) {
            Ok(g) => g,
            Err(e) => {
                return Err(e);
            },
        },
        None => {
            return Err(LoadError::SchemaViolation);
        },
    };
    let multi_line = match obj_find(entries, "multi_line") {
        Some(f) => match load_groups_field(f) {
            Ok(g) => g,
            Err(e) => {
                return Err(e);
            },
        },
        None => {
            return Err(LoadError::SchemaViolation);
        },
    };
    let line_comments = match obj_find(entries, "line_comment") {
        Some(f) => match load_texts_field(f) {
            Ok(l) => l,
            Err(e) => {
                return Err(e);
            },
        },
        None => {
            let empty: Vec<String> = Vec::new();
            proof {
                assert(empty.deep_view() =~= Seq::<Seq<char>>::empty());
            }
            empty
        },
    };
    let extensions = match obj_find(entries, "extensions") {
        Some(f) => match load_texts_field(f) {
            Ok(l) => l,
            Err(e) => {
                return Err(e);
            },
        },
        None => {
            let empty: Vec<String> = Vec::new();
            proof {
                assert(empty.deep_view() =~= Seq::<Seq<char>>::empty());
            }
            empty
        },
    };
    let nested = match obj_find(entries, "nested") {
        Some(f) => match f {
            JsonValue::Bool(b) => *b,
            _ => {
                proof {
                    crate::json::lemma_model_variants(*f);
                }
                return Err(LoadError::SchemaViolation);
            },
        },
        None => false,
    };
    let other = collect_others(entries);
    proof {
        assert(json_model(*v)->Object_0 == entry_models(entries@));
    }
    Ok(LanguageDefinition { line_comments, extensions, nested, quotes, multi_line, other })
}

/// Copies the entries that are not named attributes, in order.
fn collect_others(entries: &Vec<(String, JsonValue)>) -> (r: Vec<(String, JsonValue)>)
    ensures
        entry_models(r@) == others_of(entry_models(entries@)),
{
    proof {
        lemma_entry_models_index(entries@);
    }
    let ghost ms = entry_models(entries@);
    let mut out: Vec<(String, JsonValue)> = Vec::new();
    let mut k: usize = 0;
    proof {
        assert(entry_models(out@) =~= others_of(ms.take(0)));
    }
    while k < entries.len()
        invariant
            0 <= k <= entries@.len(),
            ms == entry_models(entries@),
            ms.len() == entries@.len(),
            forall|i: int|
                0 <= i < entries@.len() ==> ms[i] == ((#[trigger] entries@[i]).0@, json_model(
                    entries@[i].1,
                )),
            entry_models(out@) == others_of(ms.take(k as int)),
        decreases entries@.len() - k,
    {
        let key = &entries[k].0;
        let known = str_eq(key.as_str(), "quotes") || str_eq(key.as_str(), "multi_line")
            || str_eq(key.as_str(), "line_comment") || str_eq(key.as_str(), "extensions")
            || str_eq(key.as_str(), "nested");
        proof {
            assert(ms.take(k + 1).drop_last() =~= ms.take(k as int));
            assert(ms.take(k + 1).last() == ms[k as int]);
        }
        if !known {
            let name = entries[k].0.clone();
            let val = clone_json(&entries[k].1);
            let ghost old_out = out@;
            out.push((name, val));
            proof {
                assert(out@.drop_last() =~= old_out);
            }
        }
        k += 1;
    }
    proof {
        assert(ms.take(ms.len() as int) =~= ms);
    }
    out
}

/// Loads the declarative corpus: a JSON document whose `languages` object
/// maps each language identifier to its lexical rule set.  The result is
/// determined by the document alone: `CorpusMalformed` exactly when the text
/// is not valid JSON, `SchemaViolation` exactly when the document is not
/// well shaped, and otherwise one entry per language, in order, holding that
/// language's loaded definition and its pass-through attributes.  No partial
/// result ever comes back.
pub fn load_corpus(text: &str) -> (r: Result<Vec<(String, LanguageDefinition)>, LoadError>)
    ensures
        (r matches Err(e) && e == LoadError::CorpusMalformed) <==> json_doc_of(text@) is None,
        json_doc_of(text@) matches Some(doc) ==> {
            &&& ((r matches Err(e) && e == LoadError::SchemaViolation) <==> !doc_ok(doc))
            &&& (r matches Ok(t) ==> {
                let langs = doc_langs(doc);
                &&& t@.len() == langs.len()
                &&& forall|i: int|
                    0 <= i < langs.len() ==> {
                        &&& (#[trigger] t@[i]).0@ == langs[i].0
                        &&& t@[i].1@ == lang_view(langs[i].1)
                        &&& entry_models(t@[i].1.other@) == lang_other(langs[i].1)
                    }
            })
        },
{
    let doc_value = match json_parse(text) {
        None => {
            return Err(LoadError::CorpusMalformed);
        },
        Some(v) => v,
    };
    let ghost doc = json_model(doc_value);
    let entries = match &doc_value {
        JsonValue::Object(entries) => entries,
        _ => {
            proof {
                crate::json::lemma_model_variants(doc_value);
            }
            return Err(LoadError::SchemaViolation);
        },
    };
    proof {
        assert(doc == JsonModel::Object(entry_models(entries@)));
    }
    let langs_value = match obj_find(entries, "languages") {
        None => {
            return Err(LoadError::SchemaViolation);
        },
        Some(lv) => lv,
    };
    let lang_entries = match langs_value {
        JsonValue::Object(lang_entries) => lang_entries,
        _ => {
            proof {
                crate::json::lemma_model_variants(*langs_value);
            }
            return Err(LoadError::SchemaViolation);
        },
    };
    proof {
        assert(json_model(*langs_value) == JsonModel::Object(entry_models(lang_entries@)));
        lemma_entry_models_index(lang_entries@);
        assert(doc_langs(doc) == entry_models(lang_entries@));
    }
    let ghost langs = entry_models(lang_entries@);
    let mut out: Vec<(String, LanguageDefinition)> = Vec::new();
    let mut k: usize = 0;
    while k < lang_entries.len()
        invariant
            0 <= k <= lang_entries@.len(),
            json_doc_of(text@) == Some(doc),
            doc is Object,
            obj_get(doc->Object_0, "languages"@) == Some(JsonModel::Object(langs)),
            langs == entry_models(lang_entries@),
            langs.len() == lang_entries@.len(),
            forall|i: int|
                0 <= i < lang_entries@.len() ==> langs[i] == ((#[trigger] lang_entries@[i]).0@,
                json_model(lang_entries@[i].1)),
            out@.len() == k,
            forall|i: int|
                0 <= i < k ==> {
                    &&& lang_ok((#[trigger] langs[i]).1)
                    &&& out@[i].0@ == langs[i].0
                    &&& out@[i].1@ == lang_view(langs[i].1)
                    &&& entry_models(out@[i].1.other@) == lang_other(langs[i].1)
                },
        decreases lang_entries@.len() - k,
    {
        let def = match load_language(&lang_entries[k].1) {
            Ok(d) => d,
            Err(_) => {
                proof {
                    assert(langs[k as int] == (lang_entries@[k as int].0@, json_model(
                        lang_entries@[k as int].1,
                    )));
                    assert(!lang_ok(langs[k as int].1));
                    let langs_obj = obj_get(doc->Object_0, "languages"@)->Some_0;
                    assert(langs_obj->Object_0 == langs);
                    assert(!lang_ok(langs_obj->Object_0[k as int].1));
                    assert(!doc_ok(doc));
                }
                return Err(LoadError::SchemaViolation);
            },
        };
        let name = lang_entries[k].0.clone();
        out.push((name, def));
        k += 1;
    }
    Ok(out)
}

} // verus!
