//! Schemas of JSON in the form that providers take: no metadata at the root, and definitions in
//! place of references to them.

use crate::json::{Json, JsonView, copy_json, find_entry, insert_entry, remove_entry};
use crate::json;
use crate::matching::starts_with;
use crate::matching;
use crate::text::{chars_of, from_chars, same};
use crate::text;
use vstd::prelude::*;
use vstd::string::*;

verus! {

/// What a reference to a definition begins with.
pub const REF_PREFIX: &'static str = "#/$defs/";

/// The definition that an object refers to, where there is one.
pub open spec fn ref_target(
    m: Seq<(Seq<char>, JsonView)>,
    defs: Seq<(Seq<char>, JsonView)>,
) -> Option<JsonView> {
    match json::lookup(m, "$ref"@) {
        Some(JsonView::Text(path)) => if matching::begins(path, REF_PREFIX@) {
            json::lookup(defs, path.skip(REF_PREFIX@.len() as int))
        } else {
            None
        },
        _ => None,
    }
}

/// A definition with the description that stood beside the reference to it.
pub open spec fn described(def: JsonView, m: Seq<(Seq<char>, JsonView)>) -> JsonView {
    match (json::lookup(m, "description"@), def) {
        (Some(d), JsonView::Object(o)) => JsonView::Object(json::with_entry(o, "description"@, d)),
        _ => def,
    }
}

/// A value with each reference to a definition replaced by the definition, which is taken as it is.
pub open spec fn resolved(v: JsonView, defs: Seq<(Seq<char>, JsonView)>) -> JsonView
    decreases v,
{
    match v {
        JsonView::Object(m) => match ref_target(m, defs) {
            Some(def) => described(def, m),
            None => JsonView::Object(
                Seq::new(
                    m.len(),
                    |i: int|
                        if 0 <= i < m.len() {
                            (m[i].0, resolved(m[i].1, defs))
                        } else {
                            (Seq::empty(), JsonView::Null)
                        },
                ),
            ),
        },
        JsonView::List(s) => JsonView::List(
            Seq::new(
                s.len(),
                |i: int|
                    if 0 <= i < s.len() {
                        resolved(s[i], defs)
                    } else {
                        JsonView::Null
                    },
            ),
        ),
        _ => v,
    }
}

/// The definition that an object refers to.
fn find_target<'a>(m: &Vec<(String, Json)>, defs: &'a Vec<(String, Json)>) -> (r: Option<&'a Json>)
    ensures
        match r {
            Some(d) => ref_target(json::entry_views(m@), json::entry_views(defs@)) == Some(d@),
            None => ref_target(json::entry_views(m@), json::entry_views(defs@)) is None,
        },
{
    let p: usize = find_entry(m, "$ref");
    if p == m.len() {
        return None;
    }
    match &m[p].1 {
        Json::Text(path) => {
            if !starts_with(path.as_str(), REF_PREFIX) {
                return None;
            }
            let cs = chars_of(path.as_str());
            let prefix = chars_of(REF_PREFIX);
            let name = from_chars(&cs[prefix.len()..cs.len()]);
            assert(name@ =~= path@.skip(REF_PREFIX@.len() as int));
            let q: usize = find_entry(defs, name.as_str());
            if q < defs.len() {
                Some(&defs[q].1)
            } else {
                None
            }
        },
        _ => None,
    }
}

/// A definition with the description that stood beside the reference to it.
fn describe(def: &Json, m: &Vec<(String, Json)>) -> (r: Json)
    ensures
        r@ == described(def@, json::entry_views(m@)),
{
    let copy = copy_json(def);
    let p: usize = find_entry(m, "description");
    if p == m.len() {
        return copy;
    }
    proof {
        json::lemma_json_parts(copy);
    }
    match copy {
        Json::Object(o) => {
            let mut o = o;
            insert_entry(&mut o, "description", copy_json(&m[p].1));
            let r = Json::Object(o);
            proof {
                json::lemma_json_parts(r);
            }
            r
        },
        other => other,
    }
}

/// A value with each reference to a definition replaced by the definition.
pub fn resolve_value(v: &Json, defs: &Vec<(String, Json)>) -> (r: Json)
    ensures
        r@ == resolved(v@, json::entry_views(defs@)),
    decreases v,
{
    proof {
        json::lemma_json_parts(*v);
    }
    let ghost d = json::entry_views(defs@);
    match v {
        Json::Object(m) => {
            match find_target(m, defs) {
                Some(def) => {
                    return describe(def, m);
                },
                None => {},
            }
            let mut out: Vec<(String, Json)> = Vec::new();
            let ghost want = resolved(v@, d)->Object_0;
            assert(json::entry_views(out@) =~= want.take(0));
            for i in 0..m.len()
                invariant
                    *v == Json::Object(*m),
                    d == json::entry_views(defs@),
                    v@ == JsonView::Object(json::entry_views(m@)),
                    ref_target(json::entry_views(m@), d) is None,
                    want == resolved(v@, d)->Object_0,
                    json::entry_views(out@) == want.take(i as int),
            {
                assert(decreases_to!(*v => v->Object_0));
                assert(decreases_to!(*m => m[i as int]));
                assert(decreases_to!(m[i as int] => m[i as int].1));
                let (name, value) = &m[i];
                let ghost before = json::entry_views(out@);
                out.push((name.clone(), resolve_value(value, defs)));
                assert(json::entry_views(m@)[i as int] == (name@, json::json_view(*value)));
                assert(want[i as int] == (name@, resolved(value@, d)));
                assert(json::entry_views(out@) =~= before.push(want[i as int]));
                assert(json::entry_views(out@) =~= want.take(i + 1));
            }
            assert(want.take(m@.len() as int) =~= want);
            let r = Json::Object(out);
            proof {
                json::lemma_json_parts(r);
            }
            r
        },
        Json::List(s) => {
            let mut out: Vec<Json> = Vec::new();
            let ghost want = resolved(v@, d)->List_0;
            assert(json::item_views(out@) =~= want.take(0));
            for i in 0..s.len()
                invariant
                    *v == Json::List(*s),
                    d == json::entry_views(defs@),
                    v@ == JsonView::List(json::item_views(s@)),
                    want == resolved(v@, d)->List_0,
                    json::item_views(out@) == want.take(i as int),
            {
                assert(decreases_to!(*v => v->List_0));
                assert(decreases_to!(*s => s[i as int]));
                let ghost before = json::item_views(out@);
                out.push(resolve_value(&s[i], defs));
                assert(json::item_views(s@)[i as int] == json::json_view(s@[i as int]));
                assert(want[i as int] == resolved(s@[i as int]@, d));
                assert(json::item_views(out@) =~= before.push(want[i as int]));
                assert(json::item_views(out@) =~= want.take(i + 1));
            }
            assert(want.take(s@.len() as int) =~= want);
            let r = Json::List(out);
            proof {
                json::lemma_json_parts(r);
            }
            r
        },
        other => copy_json(other),
    }
}

/// Replaces each reference to a definition by the definition.
pub fn resolve_refs(value: &mut Json, defs: &Vec<(String, Json)>)
    ensures
        final(value)@ == resolved(old(value)@, json::entry_views(defs@)),
{
    let r = resolve_value(value, defs);
    *value = r;
}

/// A schema without metadata at its root.
pub open spec fn stripped(m: Seq<(Seq<char>, JsonView)>) -> Seq<(Seq<char>, JsonView)> {
    json::without(json::without(json::without(m, "$schema"@), "title"@), "$defs"@)
}

/// A schema without metadata at its root, and with its definitions in place.
pub open spec fn inlined(schema: JsonView) -> JsonView {
    match schema {
        JsonView::Object(m) => match json::lookup(m, "$defs"@) {
            Some(JsonView::Object(defs)) => resolved(JsonView::Object(stripped(m)), defs),
            _ => JsonView::Object(stripped(m)),
        },
        _ => schema,
    }
}

/// A schema that allows no properties but those it names, where it is an object.
pub open spec fn closed_schema(schema: JsonView) -> JsonView {
    match schema {
        JsonView::Object(m) => JsonView::Object(
            json::with_entry(m, "additionalProperties"@, JsonView::Bool(false)),
        ),
        _ => schema,
    }
}

/// A schema in the form that providers take.
pub open spec fn schema_form(schema: JsonView, add_additional_properties: bool) -> JsonView {
    if add_additional_properties {
        closed_schema(inlined(schema))
    } else {
        inlined(schema)
    }
}

/// Brings a schema into the form that providers take.
pub fn sanitize_schema(schema: Json, add_additional_properties: bool) -> (r: Json)
    ensures
        r@ == schema_form(schema@, add_additional_properties),
{
    proof {
        json::lemma_json_parts(schema);
    }
    let flat = match schema {
        Json::Object(m) => {
            let p: usize = find_entry(&m, "$defs");
            let defs = if p < m.len() {
                Some(copy_json(&m[p].1))
            } else {
                None
            };
            let m1 = remove_entry(m, "$schema");
            let m2 = remove_entry(m1, "title");
            let m3 = remove_entry(m2, "$defs");
            let root = Json::Object(m3);
            proof {
                json::lemma_json_parts(root);
                if defs is Some {
                    json::lemma_json_parts(defs->0);
                }
            }
            match defs {
                Some(Json::Object(d)) => resolve_value(&root, &d),
                _ => root,
            }
        },
        other => other,
    };
    if !add_additional_properties {
        return flat;
    }
    proof {
        json::lemma_json_parts(flat);
    }
    match flat {
        Json::Object(m) => {
            let mut m = m;
            insert_entry(&mut m, "additionalProperties", Json::Bool(false));
            let r = Json::Object(m);
            proof {
                json::lemma_json_parts(r);
            }
            r
        },
        other => other,
    }
}

/// The schema of no arguments.
pub open spec fn no_arguments() -> JsonView {
    JsonView::Object(
        seq![
            ("type"@, JsonView::Text("object"@)),
            ("properties"@, JsonView::Object(Seq::empty())),
            ("additionalProperties"@, JsonView::Bool(false)),
        ],
    )
}

/// Whether a schema is that of nothing at all.
pub open spec fn is_null_schema(v: JsonView) -> bool {
    v matches JsonView::Object(m) && json::lookup(m, "type"@) == Some(JsonView::Text("null"@))
}

/// Brings the schema of arguments into the form that providers take: always an object.
pub fn sanitize_params_schema(schema: Json) -> (r: Json)
    ensures
        r@ == (if is_null_schema(schema_form(schema@, true)) {
            no_arguments()
        } else {
            schema_form(schema@, true)
        }),
{
    let s = sanitize_schema(schema, true);
    let null = match s.get("type") {
        Some(Json::Text(t)) => same(t.as_str(), "null"),
        _ => false,
    };
    if null {
        empty_args_schema()
    } else {
        s
    }
}

/// The schema of no arguments.
pub fn empty_args_schema() -> (r: Json)
    ensures
        r@ == no_arguments(),
{
    let mut m: Vec<(String, Json)> = Vec::new();
    m.push(("type".to_owned(), Json::Text("object".to_owned())));
    m.push(("properties".to_owned(), Json::Object(Vec::new())));
    m.push(("additionalProperties".to_owned(), Json::Bool(false)));
    let r = Json::Object(m);
    proof {
        json::lemma_json_parts(r);
        json::lemma_json_parts(m@[1].1);
        assert(json::entry_views(m@)[1].1->Object_0 =~= Seq::empty());
        assert(json::entry_views(m@) =~= no_arguments()->Object_0);
    }
    r
}

/// Brings the schema of a result into the form that providers take.
pub fn sanitize_output_schema(schema: Json) -> (r: Json)
    ensures
        r@ == schema_form(schema@, false),
{
    sanitize_schema(schema, false)
}

/// The schema of a list of group names.
pub open spec fn groups_schema(names: Seq<Seq<char>>, description: Seq<char>) -> JsonView {
    let items = JsonView::Object(
        seq![
            ("type"@, JsonView::Text("string"@)),
            ("enum"@, JsonView::List(Seq::new(names.len(), |i: int| JsonView::Text(names[i])))),
        ],
    );
    let groups = JsonView::Object(
        seq![
            ("type"@, JsonView::Text("array"@)),
            ("items"@, items),
            ("description"@, JsonView::Text(description)),
        ],
    );
    JsonView::Object(
        seq![
            ("type"@, JsonView::Text("object"@)),
            ("properties"@, JsonView::Object(seq![("groups"@, groups)])),
            ("required"@, JsonView::List(seq![JsonView::Text("groups"@)])),
        ],
    )
}

/// An object of entries.
pub fn object_of(m: Vec<(String, Json)>) -> (r: Json)
    ensures
        r@ == JsonView::Object(json::entry_views(m@)),
{
    let r = Json::Object(m);
    proof {
        json::lemma_json_parts(r);
    }
    r
}

/// A list of values.
pub fn list_of(v: Vec<Json>) -> (r: Json)
    ensures
        r@ == JsonView::List(json::item_views(v@)),
{
    let r = Json::List(v);
    proof {
        json::lemma_json_parts(r);
    }
    r
}

/// The schema of the argument of `load_tools` and `unload_tools`.
pub fn groups_enum_schema(names: Vec<String>, description: &str) -> (r: Json)
    ensures
        r@ == groups_schema(text::views(names@), description@),
{
    let ghost wanted = Seq::new(names@.len(), |i: int| JsonView::Text(text::views(names@)[i]));
    let mut choices: Vec<Json> = Vec::new();
    assert(json::item_views(choices@) =~= wanted.take(0));
    for i in 0..names.len()
        invariant
            wanted == Seq::new(names@.len(), |i: int| JsonView::Text(text::views(names@)[i])),
            json::item_views(choices@) == wanted.take(i as int),
    {
        let ghost before = json::item_views(choices@);
        choices.push(Json::Text(names[i].clone()));
        assert(json::item_views(choices@) =~= before.push(wanted[i as int]));
        assert(json::item_views(choices@) =~= wanted.take(i + 1));
    }
    assert(json::item_views(choices@) =~= wanted);
    let mut items: Vec<(String, Json)> = Vec::new();
    items.push(("type".to_owned(), Json::Text("string".to_owned())));
    items.push(("enum".to_owned(), list_of(choices)));
    assert(json::entry_views(items@) =~= seq![
        ("type"@, JsonView::Text("string"@)),
        ("enum"@, JsonView::List(wanted)),
    ]);
    let mut groups: Vec<(String, Json)> = Vec::new();
    groups.push(("type".to_owned(), Json::Text("array".to_owned())));
    groups.push(("items".to_owned(), object_of(items)));
    groups.push(("description".to_owned(), Json::Text(description.to_owned())));
    let ghost group_entries = seq![
        ("type"@, JsonView::Text("array"@)),
        (
            "items"@,
            JsonView::Object(
                seq![("type"@, JsonView::Text("string"@)), ("enum"@, JsonView::List(wanted))],
            ),
        ),
        ("description"@, JsonView::Text(description@)),
    ];
    assert(json::entry_views(groups@) =~= group_entries);
    let mut properties: Vec<(String, Json)> = Vec::new();
    properties.push(("groups".to_owned(), object_of(groups)));
    assert(json::entry_views(properties@) =~= seq![("groups"@, JsonView::Object(group_entries))]);
    let mut required: Vec<Json> = Vec::new();
    required.push(Json::Text("groups".to_owned()));
    assert(json::item_views(required@) =~= seq![JsonView::Text("groups"@)]);
    let mut root: Vec<(String, Json)> = Vec::new();
    root.push(("type".to_owned(), Json::Text("object".to_owned())));
    root.push(("properties".to_owned(), object_of(properties)));
    root.push(("required".to_owned(), list_of(required)));
    assert(json::entry_views(root@) =~= groups_schema(text::views(names@), description@)->Object_0);
    object_of(root)
}

proof fn lemma_without_absent(m: Seq<(Seq<char>, JsonView)>, name: Seq<char>)
    ensures
        json::lookup(json::without(m, name), name) is None,
        forall|i: int|
            0 <= i < json::without(m, name).len() ==> (#[trigger] json::without(m, name)[i]).0 != name,
    decreases m.len(),
{
    if m.len() > 0 {
        lemma_without_absent(m.drop_last(), name);
    }
    lemma_absent(json::without(m, name), name);
}

proof fn lemma_absent(m: Seq<(Seq<char>, JsonView)>, name: Seq<char>)
    requires
        forall|i: int| 0 <= i < m.len() ==> (#[trigger] m[i]).0 != name,
    ensures
        json::lookup(m, name) is None,
        json::without(m, name) == m,
    decreases m.len(),
{
    if m.len() > 0 {
        assert(m[0].0 != name);
        let t = m.skip(1);
        assert forall|i: int| 0 <= i < t.len() implies (#[trigger] t[i]).0 != name by {
            assert(t[i] == m[i + 1]);
        }
        lemma_absent(t, name);
        let f = m.drop_last();
        assert forall|i: int| 0 <= i < f.len() implies (#[trigger] f[i]).0 != name by {
            assert(f[i] == m[i]);
        }
        lemma_absent(f, name);
        assert(m[m.len() - 1].0 != name);
        assert(f.push(m.last()) =~= m);
    }
}

proof fn lemma_lookup_none(m: Seq<(Seq<char>, JsonView)>, name: Seq<char>)
    requires
        json::lookup(m, name) is None,
    ensures
        forall|i: int| 0 <= i < m.len() ==> (#[trigger] m[i]).0 != name,
    decreases m.len(),
{
    if m.len() > 0 {
        lemma_lookup_none(m.skip(1), name);
        assert forall|i: int| 0 <= i < m.len() implies (#[trigger] m[i]).0 != name by {
            if i > 0 {
                assert(m.skip(1)[i - 1] == m[i]);
            }
        }
    }
}

proof fn lemma_without_keeps_absent(
    m: Seq<(Seq<char>, JsonView)>,
    other: Seq<char>,
    name: Seq<char>,
)
    requires
        forall|i: int| 0 <= i < m.len() ==> (#[trigger] m[i]).0 != name,
    ensures
        forall|i: int|
            0 <= i < json::without(m, other).len() ==> (#[trigger] json::without(m, other)[i]).0 != name,
    decreases m.len(),
{
    if m.len() > 0 {
        let f = m.drop_last();
        assert forall|i: int| 0 <= i < f.len() implies (#[trigger] f[i]).0 != name by {
            assert(f[i] == m[i]);
        }
        lemma_without_keeps_absent(f, other, name);
        assert(m[m.len() - 1].0 != name);
        let w = json::without(m, other);
        let before = json::without(f, other);
        assert forall|i: int| 0 <= i < w.len() implies (#[trigger] w[i]).0 != name by {
            if i < before.len() {
                assert(w[i] == before[i]);
            }
        }
    }
}

/// The root of a schema is rid of its metadata, unless the root itself is a reference: what it
/// refers to is taken as it is.
pub proof fn law_root_metadata_is_gone(m: Seq<(Seq<char>, JsonView)>, name: Seq<char>)
    requires
        name == "$schema"@ || name == "title"@ || name == "$defs"@,
        json::lookup(m, "$defs"@) matches Some(JsonView::Object(defs)) ==> ref_target(
            stripped(m),
            defs,
        ) is None,
    ensures
        inlined(JsonView::Object(m)) is Object,
        json::lookup(inlined(JsonView::Object(m))->Object_0, name) is None,
{
    let m1 = json::without(m, "$schema"@);
    let m2 = json::without(m1, "title"@);
    let m3 = json::without(m2, "$defs"@);
    lemma_without_absent(m, "$schema"@);
    lemma_without_absent(m1, "title"@);
    lemma_without_absent(m2, "$defs"@);
    lemma_without_keeps_absent(m1, "title"@, "$schema"@);
    lemma_without_keeps_absent(m2, "$defs"@, "$schema"@);
    lemma_without_keeps_absent(m2, "$defs"@, "title"@);
    assert(forall|i: int| 0 <= i < m3.len() ==> (#[trigger] m3[i]).0 != name);
    lemma_absent(m3, name);
    if let Some(JsonView::Object(defs)) = json::lookup(m, "$defs"@) {
        let r = resolved(JsonView::Object(m3), defs)->Object_0;
        assert forall|i: int| 0 <= i < r.len() implies (#[trigger] r[i]).0 != name by {
            assert(r[i].0 == m3[i].0);
        }
        lemma_absent(r, name);
    }
}

/// A schema without metadata is left as it is.
pub proof fn law_clean_schema_is_kept(m: Seq<(Seq<char>, JsonView)>)
    requires
        json::lookup(m, "$schema"@) is None,
        json::lookup(m, "title"@) is None,
        json::lookup(m, "$defs"@) is None,
    ensures
        schema_form(JsonView::Object(m), false) == JsonView::Object(m),
{
    lemma_lookup_none(m, "$schema"@);
    lemma_lookup_none(m, "title"@);
    lemma_lookup_none(m, "$defs"@);
    lemma_absent(m, "$schema"@);
    lemma_absent(m, "title"@);
    lemma_absent(m, "$defs"@);
}

/// The schema of arguments, where it is an object, allows no properties but those it names.
pub proof fn law_params_schema_is_closed(schema: JsonView)
    requires
        inlined(schema) is Object,
    ensures
        schema_form(schema, true) is Object,
        json::lookup(schema_form(schema, true)->Object_0, "additionalProperties"@) == Some(
            JsonView::Bool(false),
        ),
{
    lemma_with_entry(
        inlined(schema)->Object_0,
        "additionalProperties"@,
        JsonView::Bool(false),
    );
}

proof fn lemma_with_entry(m: Seq<(Seq<char>, JsonView)>, name: Seq<char>, value: JsonView)
    ensures
        json::lookup(json::with_entry(m, name, value), name) == Some(value),
    decreases m.len(),
{
    let w = json::with_entry(m, name, value);
    if m.len() > 0 && m[0].0 != name {
        lemma_with_entry(m.skip(1), name, value);
        assert(json::place_of(m, name) == 1 + json::place_of(m.skip(1), name));
        assert(w.skip(1) =~= json::with_entry(m.skip(1), name, value));
        assert(w[0] == m[0]);
    }
}

/// Whether no object in a value refers to a definition.
pub open spec fn ref_free(v: JsonView, defs: Seq<(Seq<char>, JsonView)>) -> bool
    decreases v,
{
    match v {
        JsonView::Object(m) => ref_target(m, defs) is None && forall|i: int|
            0 <= i < m.len() ==> ref_free((#[trigger] m[i]).1, defs),
        JsonView::List(s) => forall|i: int| 0 <= i < s.len() ==> ref_free(#[trigger] s[i], defs),
        _ => true,
    }
}

/// Whether each reference, and each description, is a text.
pub open spec fn plain_schema(v: JsonView, defs: Seq<(Seq<char>, JsonView)>) -> bool
    decreases v,
{
    match v {
        JsonView::Object(m) => {
            &&& (json::lookup(m, "description"@) matches Some(d) ==> d is Text)
            &&& (json::lookup(m, "$ref"@) matches Some(d) ==> d is Text)
            &&& forall|i: int| 0 <= i < m.len() ==> plain_schema((#[trigger] m[i]).1, defs)
        },
        JsonView::List(s) => forall|i: int|
            0 <= i < s.len() ==> plain_schema(#[trigger] s[i], defs),
        _ => true,
    }
}

/// Where the definitions themselves refer to none, no reference to a definition is left.
pub proof fn law_references_are_replaced(v: JsonView, defs: Seq<(Seq<char>, JsonView)>)
    requires
        plain_schema(v, defs),
        forall|i: int| 0 <= i < defs.len() ==> ref_free((#[trigger] defs[i]).1, defs),
    ensures
        ref_free(resolved(v, defs), defs),
    decreases v,
{
    match v {
        JsonView::Object(m) => {
            match ref_target(m, defs) {
                Some(def) => {
                    lemma_lookup_member(defs, json::lookup(m, "$ref"@)->0->Text_0.skip(
                        REF_PREFIX@.len() as int,
                    ));
                    let k = choose|k: int| 0 <= k < defs.len() && (#[trigger] defs[k]).1 == def;
                    assert(ref_free(defs[k].1, defs));
                    if let Some(d) = json::lookup(m, "description"@) {
                        if let JsonView::Object(o) = def {
                            lemma_described_free(o, d, defs);
                        }
                    }
                },
                None => {
                    let r = resolved(v, defs)->Object_0;
                    assert forall|i: int| 0 <= i < r.len() implies ref_free(
                        (#[trigger] r[i]).1,
                        defs,
                    ) by {
                        assert(plain_schema(m[i].1, defs));
                        law_references_are_replaced(m[i].1, defs);
                    }
                    lemma_lookup_resolved(m, r, defs, "$ref"@);
                    assert(ref_target(r, defs) is None);
                },
            }
        },
        JsonView::List(s) => {
            let r = resolved(v, defs)->List_0;
            assert forall|i: int| 0 <= i < r.len() implies ref_free(#[trigger] r[i], defs) by {
                assert(plain_schema(s[i], defs));
                law_references_are_replaced(s[i], defs);
            }
        },
        _ => {},
    }
}

proof fn lemma_lookup_member(m: Seq<(Seq<char>, JsonView)>, name: Seq<char>)
    ensures
        json::lookup(m, name) matches Some(v) ==> exists|i: int|
            0 <= i < m.len() && (#[trigger] m[i]).1 == v,
    decreases m.len(),
{
    if m.len() > 0 {
        if m[0].0 == name {
            assert(m[0].1 == json::lookup(m, name)->0);
        } else {
            lemma_lookup_member(m.skip(1), name);
            if let Some(v) = json::lookup(m.skip(1), name) {
                let i = choose|i: int| 0 <= i < m.skip(1).len() && (#[trigger] m.skip(1)[i]).1 == v;
                assert(m[i + 1].1 == v);
            }
        }
    }
}

/// An object with a text for its description refers to what it referred to before.
proof fn lemma_described_free(
    o: Seq<(Seq<char>, JsonView)>,
    d: JsonView,
    defs: Seq<(Seq<char>, JsonView)>,
)
    requires
        ref_free(JsonView::Object(o), defs),
        d is Text,
    ensures
        ref_free(JsonView::Object(json::with_entry(o, "description"@, d)), defs),
{
    let w = json::with_entry(o, "description"@, d);
    reveal_strlit("$ref");
    reveal_strlit("description");
    assert("$ref"@ != "description"@) by {
        assert("$ref"@.len() != "description"@.len());
    }
    lemma_with_other(o, "description"@, d, "$ref"@);
    assert forall|i: int| 0 <= i < w.len() implies ref_free((#[trigger] w[i]).1, defs) by {
        if w[i].1 != d {
            assert(w[i] == o[i]);
            assert(ref_free(o[i].1, defs));
        }
    }
}

proof fn lemma_with_other(
    m: Seq<(Seq<char>, JsonView)>,
    name: Seq<char>,
    value: JsonView,
    other: Seq<char>,
)
    requires
        other != name,
    ensures
        json::lookup(json::with_entry(m, name, value), other) == json::lookup(m, other),
    decreases m.len(),
{
    let w = json::with_entry(m, name, value);
    if m.len() == 0 {
        assert(w.skip(1) =~= m);
    } else if m[0].0 == name {
        assert(w.skip(1) =~= m.skip(1));
    } else {
        lemma_with_other(m.skip(1), name, value, other);
        assert(json::place_of(m, name) == 1 + json::place_of(m.skip(1), name));
        assert(w.skip(1) =~= json::with_entry(m.skip(1), name, value));
        assert(w[0] == m[0]);
    }
}

/// A name stands for the resolved value of what it stood for.
proof fn lemma_lookup_resolved(
    m: Seq<(Seq<char>, JsonView)>,
    r: Seq<(Seq<char>, JsonView)>,
    defs: Seq<(Seq<char>, JsonView)>,
    name: Seq<char>,
)
    requires
        r.len() == m.len(),
        forall|i: int|
            0 <= i < m.len() ==> #[trigger] r[i] == (m[i].0, resolved(m[i].1, defs)),
    ensures
        match json::lookup(m, name) {
            None => json::lookup(r, name) is None,
            Some(v) => json::lookup(r, name) == Some(resolved(v, defs)),
        },
    decreases m.len(),
{
    if m.len() > 0 {
        assert(r[0] == (m[0].0, resolved(m[0].1, defs)));
        let t = r.skip(1);
        let u = m.skip(1);
        assert forall|i: int| 0 <= i < u.len() implies #[trigger] t[i] == (
            u[i].0,
            resolved(u[i].1, defs),
        ) by {
            assert(t[i] == r[i + 1]);
            assert(u[i] == m[i + 1]);
        }
        lemma_lookup_resolved(u, t, defs, name);
    }
}

} // verus!
