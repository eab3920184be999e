//! What JSON is written and read for: what goes in under a name comes out under it, and a text that
//! is written between quotes reads back as it was.

use crate::json::JsonView;
use crate::json;
use crate::schema;
use crate::text;
use vstd::prelude::*;
use vstd::string::*;

verus! {

/// The value of a lower-case hexadecimal digit.
pub open spec fn digit_value(c: char) -> int {
    if c <= '9' {
        c as int - '0' as int
    } else {
        c as int - 'a' as int + 10
    }
}

/// What the inside of a JSON text stands for, read from left to right; nothing where it ends within
/// an escape.
pub open spec fn unescaped(t: Seq<char>) -> Option<Seq<char>>
    decreases t.len(),
{
    if t.len() == 0 {
        Some(Seq::empty())
    } else if t[0] != '\\' {
        match unescaped(t.skip(1)) {
            Some(s) => Some(seq![t[0]] + s),
            None => None,
        }
    } else if t.len() < 2 {
        None
    } else if t[1] == 'u' {
        if t.len() < 6 {
            None
        } else {
            match unescaped(t.skip(6)) {
                Some(s) => Some(
                    seq![
                        (4096 * digit_value(t[2]) + 256 * digit_value(t[3]) + 16 * digit_value(t[4])
                            + digit_value(t[5])) as char,
                    ] + s,
                ),
                None => None,
            }
        }
    } else {
        match unescaped(t.skip(2)) {
            Some(s) => Some(
                seq![
                    if t[1] == 'n' {
                        '\n'
                    } else if t[1] == 'r' {
                        '\r'
                    } else if t[1] == 't' {
                        '\t'
                    } else if t[1] == 'b' {
                        '\u{8}'
                    } else if t[1] == 'f' {
                        '\u{c}'
                    } else {
                        t[1]
                    },
                ] + s,
            ),
            None => None,
        }
    }
}

/// A text between its quotes reads back as it was, whatever it holds.
pub proof fn law_quoted_text_reads_back(s: Seq<char>)
    ensures
        ({
            let q = json::json_quoted(s);
            &&& q.len() >= 2
            &&& q[0] == '"'
            &&& q.last() == '"'
            &&& unescaped(q.subrange(1, q.len() - 1)) == Some(s)
        }),
{
    let q = json::json_quoted(s);
    assert(q.subrange(1, q.len() - 1) =~= text::expand(s, json::json_char()));
    lemma_reads_back(s);
}

proof fn lemma_reads_back(s: Seq<char>)
    ensures
        unescaped(text::expand(s, json::json_char())) == Some(s),
    decreases s.len(),
{
    let f = json::json_char();
    if s.len() > 0 {
        let c = s[0];
        let rest = s.skip(1);
        lemma_reads_back(rest);
        assert(s =~= seq![c] + rest);
        text::lemma_expand_concat(seq![c], rest, f);
        assert(seq![c].drop_last() =~= Seq::<char>::empty());
        reveal_with_fuel(text::expand, 2);
        assert(text::expand(seq![c], f) =~= f(c));
        let t = text::expand(s, f);
        let r = text::expand(rest, f);
        assert(t == f(c) + r);
        lemma_one_character(c, r);
        assert(seq![c] + rest =~= s);
    }
}

proof fn lemma_one_character(c: char, r: Seq<char>)
    requires
        unescaped(r) is Some,
    ensures
        unescaped(json::json_char()(c) + r) == Some(seq![c] + unescaped(r)->0),
{
    let e = json::json_char()(c);
    let t = e + r;
    assert(t.skip(e.len() as int) =~= r);
    if e.len() == 6 {
        let n = (c as u32) as nat;
        assert(n < 32);
        assert(t[4] == text::hex_char(n / 16) && t[5] == text::hex_char(n % 16));
        lemma_hex_digit(n / 16);
        lemma_hex_digit(n % 16);
        assert(digit_value(t[2]) == 0 && digit_value(t[3]) == 0);
        assert(16 * (n / 16) + n % 16 == n);
    }
}

proof fn lemma_hex_digit(d: nat)
    requires
        d < 16,
    ensures
        digit_value(text::hex_char(d)) == d,
{
}

/// The value of a name is that of its first entry; there is none where no entry has the name.
pub proof fn law_lookup_finds_the_first_entry(m: Seq<(Seq<char>, JsonView)>, name: Seq<char>, i: int)
    ensures
        0 <= i < m.len() && m[i].0 == name && (forall|j: int|
            0 <= j < i ==> (#[trigger] m[j]).0 != name) ==> json::lookup(m, name) == Some(m[i].1),
        (forall|j: int| 0 <= j < m.len() ==> (#[trigger] m[j]).0 != name) ==> json::lookup(m, name)
            is None,
    decreases m.len(),
{
    if m.len() > 0 && m[0].0 != name {
        let t = m.skip(1);
        law_lookup_finds_the_first_entry(t, name, i - 1);
        assert forall|j: int| 0 <= j < t.len() implies #[trigger] t[j] == m[j + 1] by {}
        if 0 < i < m.len() && m[i].0 == name && (forall|j: int|
            0 <= j < i ==> (#[trigger] m[j]).0 != name) {
            assert(t[i - 1] == m[i]);
            assert forall|j: int| 0 <= j < i - 1 implies (#[trigger] t[j]).0 != name by {
                assert(m[j + 1].0 != name);
            }
        }
        if forall|j: int| 0 <= j < m.len() ==> (#[trigger] m[j]).0 != name {
            assert forall|j: int| 0 <= j < t.len() implies (#[trigger] t[j]).0 != name by {
                assert(m[j + 1].0 != name);
            }
        }
    }
}

/// What is put under a name is found under it, and what stands under others stays.
pub proof fn law_put_is_found(m: Seq<(Seq<char>, JsonView)>, name: Seq<char>, value: JsonView, other: Seq<char>)
    ensures
        json::lookup(json::with_entry(m, name, value), name) == Some(value),
        other != name ==> json::lookup(json::with_entry(m, name, value), other) == json::lookup(
            m,
            other,
        ),
    decreases m.len(),
{
    let w = json::with_entry(m, name, value);
    if m.len() == 0 {
        assert(json::lookup(w.skip(1), other) is None);
    } else if m[0].0 == name {
        assert(w[0] == (name, value));
        assert(w.skip(1) =~= m.skip(1));
    } else {
        law_put_is_found(m.skip(1), name, value, other);
        assert(w[0] == m[0]);
        assert(w.skip(1) =~= json::with_entry(m.skip(1), name, value));
    }
}

/// What is taken out is gone, and everything else stays.
pub proof fn law_taken_out_is_gone(m: Seq<(Seq<char>, JsonView)>, name: Seq<char>, other: Seq<char>)
    ensures
        json::lookup(json::without(m, name), name) is None,
        other != name ==> json::lookup(json::without(m, name), other) == json::lookup(m, other),
    decreases m.len(),
{
    if m.len() > 0 {
        let t = m.drop_last();
        law_taken_out_is_gone(t, name, other);
        let kept = json::without(t, name);
        assert(t.push(m.last()) =~= m);
        lemma_lookup_push(t, m.last(), other);
        lemma_lookup_push(kept, m.last(), other);
        lemma_lookup_push(kept, m.last(), name);
    }
}

proof fn lemma_lookup_push(m: Seq<(Seq<char>, JsonView)>, e: (Seq<char>, JsonView), name: Seq<char>)
    ensures
        json::lookup(m.push(e), name) == (match json::lookup(m, name) {
            Some(v) => Some(v),
            None => if e.0 == name {
                Some(e.1)
            } else {
                None
            },
        }),
    decreases m.len(),
{
    let w = m.push(e);
    if m.len() == 0 {
        assert(json::lookup(w.skip(1), name) is None);
    } else if m[0].0 != name {
        lemma_lookup_push(m.skip(1), e, name);
        assert(w.skip(1) =~= m.skip(1).push(e));
    }
}

/// A list is written as its values with commas between them, in order, in square brackets; an object
/// as its names and values, in curly ones.
pub proof fn law_lists_and_objects_are_written_whole(
    s: Seq<JsonView>,
    m: Seq<(Seq<char>, JsonView)>,
)
    ensures
        json::json_text(JsonView::List(s)) == "["@ + text::join(
            Seq::new(s.len(), |i: int| json::json_text(s[i])),
            ","@,
        ) + "]"@,
        json::json_text(JsonView::Object(m)) == "{"@ + text::join(
            Seq::new(m.len(), |i: int| json::json_quoted(m[i].0) + ":"@ + json::json_text(m[i].1)),
            ","@,
        ) + "}"@,
        json::json_text(JsonView::Bool(true)) == "true"@,
        json::json_text(JsonView::Bool(false)) == "false"@,
        json::json_text(JsonView::Null) == "null"@,
{
    lemma_items(s, s.len());
    lemma_entries(m, m.len());
}

proof fn lemma_items(s: Seq<JsonView>, n: nat)
    requires
        n <= s.len(),
    ensures
        json::items_text(s, n) == text::join(Seq::new(n, |i: int| json::json_text(s[i])), ","@),
    decreases n,
{
    let all = Seq::new(n, |i: int| json::json_text(s[i]));
    if n > 1 {
        lemma_items(s, (n - 1) as nat);
        assert(all.drop_last() =~= Seq::new((n - 1) as nat, |i: int| json::json_text(s[i])));
    }
}

proof fn lemma_entries(m: Seq<(Seq<char>, JsonView)>, n: nat)
    requires
        n <= m.len(),
    ensures
        json::entries_text(m, n) == text::join(
            Seq::new(n, |i: int| json::json_quoted(m[i].0) + ":"@ + json::json_text(m[i].1)),
            ","@,
        ),
    decreases n,
{
    let all = Seq::new(n, |i: int| json::json_quoted(m[i].0) + ":"@ + json::json_text(m[i].1));
    if n > 1 {
        lemma_entries(m, (n - 1) as nat);
        assert(all.drop_last() =~= Seq::new(
            (n - 1) as nat,
            |i: int| json::json_quoted(m[i].0) + ":"@ + json::json_text(m[i].1),
        ));
    }
}

/// A reference to a definition stands for that definition, and an object that is none keeps its names
/// and values, with the references below them replaced.
pub proof fn law_reference_stands_for_its_definition(
    m: Seq<(Seq<char>, JsonView)>,
    defs: Seq<(Seq<char>, JsonView)>,
    name: Seq<char>,
    i: int,
)
    ensures
        json::lookup(m, "$ref"@) == Some(JsonView::Text("#/$defs/"@ + name)) && json::lookup(
            m,
            "description"@,
        ) is None && json::lookup(defs, name) is Some ==> schema::resolved(
            JsonView::Object(m),
            defs,
        ) == json::lookup(defs, name)->0,
        json::lookup(m, "$ref"@) is None && 0 <= i < m.len() ==> schema::resolved(
            JsonView::Object(m),
            defs,
        ) is Object && schema::resolved(JsonView::Object(m), defs)->Object_0.len() == m.len()
            && schema::resolved(JsonView::Object(m), defs)->Object_0[i] == (
            m[i].0,
            schema::resolved(m[i].1, defs),
        ),
{
    let path = "#/$defs/"@ + name;
    assert(path.subrange(0, "#/$defs/"@.len() as int) =~= "#/$defs/"@);
    assert(path.skip("#/$defs/"@.len() as int) =~= name);
}

/// Everything that a schema says at its root but its metadata stays, and a schema of arguments says
/// besides that there are no other properties.
pub proof fn law_schema_keeps_what_it_says(m: Seq<(Seq<char>, JsonView)>, name: Seq<char>)
    requires
        name != "$schema"@,
        name != "title"@,
        name != "$defs"@,
        json::lookup(m, "$defs"@) is None,
    ensures
        schema::schema_form(JsonView::Object(m), false) is Object,
        json::lookup(schema::schema_form(JsonView::Object(m), false)->Object_0, name)
            == json::lookup(m, name),
        name != "additionalProperties"@ ==> json::lookup(
            schema::schema_form(JsonView::Object(m), true)->Object_0,
            name,
        ) == json::lookup(m, name),
{
    let a = json::without(m, "$schema"@);
    let b = json::without(a, "title"@);
    law_taken_out_is_gone(m, "$schema"@, name);
    law_taken_out_is_gone(a, "title"@, name);
    law_taken_out_is_gone(b, "$defs"@, name);
    law_put_is_found(
        json::without(b, "$defs"@),
        "additionalProperties"@,
        JsonView::Bool(false),
        name,
    );
}

/// The schema of no arguments allows no property, and it is what stands for a schema of nothing.
pub proof fn law_no_arguments_are_an_empty_object(m: Seq<(Seq<char>, JsonView)>)
    ensures
        schema::no_arguments() is Object,
        json::lookup(schema::no_arguments()->Object_0, "type"@) == Some(JsonView::Text("object"@)),
        json::lookup(m, "type"@) == Some(JsonView::Text("null"@)) ==> schema::is_null_schema(
            JsonView::Object(m),
        ),
        json::lookup(m, "type"@) == Some(JsonView::Text("object"@)) ==> !schema::is_null_schema(
            JsonView::Object(m),
        ),
{
    reveal_strlit("object");
    reveal_strlit("null");
    assert("object"@.len() == 6 && "null"@.len() == 4);
}

/// A list of groups may name every group that there is, and must be given.
pub proof fn law_groups_schema_names_the_groups(names: Seq<Seq<char>>, description: Seq<char>, i: int)
    requires
        0 <= i < names.len(),
    ensures
        ({
            let s = schema::groups_schema(names, description)->Object_0;
            let groups = s[1].1->Object_0[0];
            let items = groups.1->Object_0[1];
            &&& s[1].0 == "properties"@
            &&& groups.0 == "groups"@
            &&& items.0 == "items"@
            &&& items.1->Object_0[1].0 == "enum"@
            &&& items.1->Object_0[1].1->List_0[i] == JsonView::Text(names[i])
            &&& items.1->Object_0[1].1->List_0.len() == names.len()
            &&& s[2] == ("required"@, JsonView::List(seq![JsonView::Text("groups"@)]))
        }),
{
}

/// A description that stands beside a reference goes with the definition, and takes the place of its
/// own.
pub proof fn law_description_goes_with_the_definition(
    m: Seq<(Seq<char>, JsonView)>,
    defs: Seq<(Seq<char>, JsonView)>,
    name: Seq<char>,
    o: Seq<(Seq<char>, JsonView)>,
    d: JsonView,
    other: Seq<char>,
)
    requires
        json::lookup(m, "$ref"@) == Some(JsonView::Text("#/$defs/"@ + name)),
        json::lookup(m, "description"@) == Some(d),
        json::lookup(defs, name) == Some(JsonView::Object(o)),
    ensures
        ({
            let r = schema::resolved(JsonView::Object(m), defs);
            &&& r is Object
            &&& json::lookup(r->Object_0, "description"@) == Some(d)
            &&& other != "description"@ ==> json::lookup(r->Object_0, other) == json::lookup(o, other)
        }),
{
    let path = "#/$defs/"@ + name;
    assert(path.subrange(0, "#/$defs/"@.len() as int) =~= "#/$defs/"@);
    assert(path.skip("#/$defs/"@.len() as int) =~= name);
    law_put_is_found(o, "description"@, d, other);
}

} // verus!
