//! Values of JSON, and texts as JSON writes them.

use crate::text::same;
use crate::text;
use vstd::prelude::*;
use vstd::string::*;

verus! {

/// A value of JSON.
#[derive(Debug)]
pub enum Json {
    Null,
    Bool(bool),
    /// A number as it is written.
    Number(String),
    Text(String),
    List(Vec<Json>),
    /// Names and values, in order.
    Object(Vec<(String, Json)>),
}

/// What JSON writes for one character of a text.
pub open spec fn json_char() -> spec_fn(char) -> Seq<char> {
    |c: char|
        if c == '"' {
            seq!['\\', '"']
        } else if c == '\\' {
            seq!['\\', '\\']
        } else if c == '\u{8}' {
            seq!['\\', 'b']
        } else if c == '\u{c}' {
            seq!['\\', 'f']
        } else if c == '\n' {
            seq!['\\', 'n']
        } else if c == '\r' {
            seq!['\\', 'r']
        } else if c == '\t' {
            seq!['\\', 't']
        } else if c <= '\u{1f}' {
            seq!['\\', 'u', '0', '0', text::hex_char((c as u32) as nat / 16), text::hex_char((c as u32) as nat % 16)]
        } else {
            seq![c]
        }
}

/// A text as JSON writes it, with its quotes.
pub open spec fn json_quoted(s: Seq<char>) -> Seq<char> {
    seq!['"'] + text::expand(s, json_char()) + seq!['"']
}

/// Writes a text as JSON.
///
/// Calls `serde_json::to_string` on a string slice, which writes it between quotes with quotes,
/// backslashes and control characters below the space escaped, and does not fail for a string.
#[verifier::external_body]
pub(crate) fn json_string(text: &str) -> (r: Result<String, String>)
    ensures
        r is Ok,
        r->Ok_0@ == json_quoted(text@),
{
    serde_json::to_string(text).map_err(|e| e.to_string())
}

/// Where a JSON text that is open at `i` is closed: at the first quote that no backslash escapes.
pub open spec fn literal_end(t: Seq<char>, i: int) -> int
    decreases
            if i < t.len() {
                t.len() - i
            } else {
                0
            },
{
    if i < 0 || i >= t.len() || t[i] == '"' {
        i
    } else if t[i] == '\\' {
        literal_end(t, i + 2)
    } else {
        literal_end(t, i + 1)
    }
}

/// A text cannot get out of its quotes: what JSON writes for it is closed by its last quote and
/// none before, whatever follows.
pub proof fn law_quoted_text_is_closed(s: Seq<char>, rest: Seq<char>)
    ensures
        literal_end(json_quoted(s) + rest, 1) == json_quoted(s).len() - 1,
{
    let t = json_quoted(s) + rest;
    let body = text::expand(s, json_char());
    lemma_literal_runs(s, t, s.len() as int);
    assert(s.skip(s.len() as int) =~= Seq::<char>::empty());
    assert(s.take(s.len() as int) =~= s);
    assert(t[1 + body.len() as int] == '"');
}

proof fn lemma_control_escape(c: char)
    requires
        json_char()(c).len() == 6,
    ensures
        forall|j: int|
            2 <= j < 6 ==> #[trigger] json_char()(c)[j] != '"' && json_char()(c)[j] != '\\',
{
    let w = json_char()(c);
    assert(c <= '\u{1f}');
    let high = (c as u32) as nat / 16;
    let low = (c as u32) as nat % 16;
    assert(high < 16);
    assert('0' <= text::hex_char(high) <= '9' || 'a' <= text::hex_char(high) <= 'f');
    assert('0' <= text::hex_char(low) <= '9' || 'a' <= text::hex_char(low) <= 'f');
    assert(w[4] == text::hex_char(high));
    assert(w[5] == text::hex_char(low));
}

proof fn lemma_literal_runs(s: Seq<char>, t: Seq<char>, k: int)
    requires
        0 <= k <= s.len(),
        t.len() > 1 + text::expand(s, json_char()).len(),
        forall|j: int|
            0 <= j < text::expand(s, json_char()).len() ==> #[trigger] t[1 + j] == text::expand(s, json_char())[j],
    ensures
        literal_end(t, 1) == literal_end(t, 1 + text::expand(s.take(k), json_char()).len() as int),
        text::expand(s.take(k), json_char()).len() <= text::expand(s, json_char()).len(),
    decreases k,
{
    let f = json_char();
    if k == 0 {
        assert(s.take(0) =~= Seq::<char>::empty());
    } else {
        lemma_literal_runs(s, t, k - 1);
        let c = s[k - 1];
        let before = text::expand(s.take(k - 1), f);
        assert(s.take(k) =~= s.take(k - 1).push(c));
        text::lemma_expand_push(s.take(k - 1), c, f);
        assert(s =~= s.take(k) + s.skip(k));
        text::lemma_expand_concat(s.take(k), s.skip(k), f);
        let whole = text::expand(s, f);
        let n = before.len() as int;
        let at: int = 1 + n;
        let w = f(c);
        assert forall|j: int| 0 <= j < w.len() implies #[trigger] w[j] == t[at + j] by {
            assert(whole[n + j] == w[j]);
            assert(t[1 + (n + j)] == whole[n + j]);
        }
        assert(t[at + 0] == w[0]);
        if w.len() > 1 {
            assert(t[at + 1] == w[1]);
            assert(literal_end(t, at) == literal_end(t, at + 2));
            if w.len() == 6 {
                assert(t[at + 2] == w[2] && t[at + 3] == w[3] && t[at + 4] == w[4] && t[at + 5]
                    == w[5]);
                lemma_control_escape(c);
                assert(w[4] != '"' && w[4] != '\\' && w[5] != '"' && w[5] != '\\');
                assert(literal_end(t, at + 2) == literal_end(t, at + 3));
                assert(literal_end(t, at + 3) == literal_end(t, at + 4));
                assert(literal_end(t, at + 4) == literal_end(t, at + 5));
                assert(literal_end(t, at + 5) == literal_end(t, at + 6));
            }
        } else {
            assert(literal_end(t, at) == literal_end(t, at + 1));
        }
    }
}

/// A value of JSON as texts and lists.
pub enum JsonView {
    Null,
    Bool(bool),
    Number(Seq<char>),
    Text(Seq<char>),
    List(Seq<JsonView>),
    Object(Seq<(Seq<char>, JsonView)>),
}

impl View for Json {
    type V = JsonView;

    open spec fn view(&self) -> JsonView {
        json_view(*self)
    }
}

/// A value of JSON as texts and lists.
pub open spec fn json_view(j: Json) -> JsonView
    decreases j,
{
    match j {
        Json::Null => JsonView::Null,
        Json::Bool(b) => JsonView::Bool(b),
        Json::Number(s) => JsonView::Number(s@),
        Json::Text(s) => JsonView::Text(s@),
        Json::List(v) => JsonView::List(
            Seq::new(
                v@.len(),
                |i: int|
                    if 0 <= i < v@.len() {
                        json_view(v@[i])
                    } else {
                        JsonView::Null
                    },
            ),
        ),
        Json::Object(v) => JsonView::Object(
            Seq::new(
                v@.len(),
                |i: int|
                    if 0 <= i < v@.len() {
                        (v@[i].0@, json_view(v@[i].1))
                    } else {
                        (Seq::empty(), JsonView::Null)
                    },
            ),
        ),
    }
}

/// The values of a list.
pub open spec fn item_views(v: Seq<Json>) -> Seq<JsonView> {
    Seq::new(v.len(), |i: int| json_view(v[i]))
}

/// The names and values of an object.
pub open spec fn entry_views(v: Seq<(String, Json)>) -> Seq<(Seq<char>, JsonView)> {
    Seq::new(v.len(), |i: int| (v[i].0@, json_view(v[i].1)))
}

/// A list is the list of its values, an object that of its names and values.
pub proof fn lemma_json_parts(j: Json)
    ensures
        j matches Json::List(v) ==> json_view(j) == JsonView::List(item_views(v@)),
        j matches Json::Object(v) ==> json_view(j) == JsonView::Object(entry_views(v@)),
{
    match j {
        Json::List(v) => {
            assert(json_view(j)->List_0 =~= item_views(v@));
        },
        Json::Object(v) => {
            assert(json_view(j)->Object_0 =~= entry_views(v@));
        },
        _ => {},
    }
}

/// A copy of a value.
pub fn copy_json(j: &Json) -> (r: Json)
    ensures
        r@ == j@,
    decreases j,
{
    proof {
        lemma_json_parts(*j);
    }
    match j {
        Json::Null => Json::Null,
        Json::Bool(b) => Json::Bool(*b),
        Json::Number(s) => Json::Number(s.clone()),
        Json::Text(s) => Json::Text(s.clone()),
        Json::List(v) => {
            let mut out: Vec<Json> = Vec::new();
            assert(item_views(out@) =~= item_views(v@).take(0));
            for i in 0..v.len()
                invariant
                    *j == Json::List(*v),
                    item_views(out@) == item_views(v@).take(i as int),
            {
                let ghost before = item_views(out@);
                assert(decreases_to!(*j => j->List_0));
                assert(decreases_to!(*v => v[i as int]));
                out.push(copy_json(&v[i]));
                assert(item_views(out@) =~= before.push(json_view(v@[i as int])));
                assert(item_views(out@) =~= item_views(v@).take(i + 1));
            }
            assert(item_views(v@).take(v@.len() as int) =~= item_views(v@));
            let r = Json::List(out);
            proof {
                lemma_json_parts(r);
            }
            r
        },
        Json::Object(v) => {
            let mut out: Vec<(String, Json)> = Vec::new();
            assert(entry_views(out@) =~= entry_views(v@).take(0));
            for i in 0..v.len()
                invariant
                    *j == Json::Object(*v),
                    entry_views(out@) == entry_views(v@).take(i as int),
            {
                let ghost before = entry_views(out@);
                let (name, value) = &v[i];
                assert(decreases_to!(*j => j->Object_0));
                assert(decreases_to!(*v => v[i as int]));
                assert(decreases_to!(v[i as int] => v[i as int].1));
                out.push((name.clone(), copy_json(value)));
                assert(entry_views(out@) =~= before.push(entry_views(v@)[i as int]));
                assert(entry_views(out@) =~= entry_views(v@).take(i + 1));
            }
            assert(entry_views(v@).take(v@.len() as int) =~= entry_views(v@));
            let r = Json::Object(out);
            proof {
                lemma_json_parts(r);
            }
            r
        },
    }
}

/// The value of a name in an object.
pub open spec fn lookup(m: Seq<(Seq<char>, JsonView)>, name: Seq<char>) -> Option<JsonView>
    decreases m.len(),
{
    if m.len() == 0 {
        None
    } else if m[0].0 == name {
        Some(m[0].1)
    } else {
        lookup(m.skip(1), name)
    }
}

/// The place of a name in an object, or the number of entries.
pub open spec fn place_of(m: Seq<(Seq<char>, JsonView)>, name: Seq<char>) -> nat
    decreases m.len(),
{
    if m.len() == 0 || m[0].0 == name {
        0
    } else {
        1 + place_of(m.skip(1), name)
    }
}

/// An object without a name.
pub open spec fn without(m: Seq<(Seq<char>, JsonView)>, name: Seq<char>) -> Seq<
    (Seq<char>, JsonView),
>
    decreases m.len(),
{
    if m.len() == 0 {
        m
    } else if m.last().0 == name {
        without(m.drop_last(), name)
    } else {
        without(m.drop_last(), name).push(m.last())
    }
}

/// An object with a name: in the place it had, or at the end.
pub open spec fn with_entry(
    m: Seq<(Seq<char>, JsonView)>,
    name: Seq<char>,
    value: JsonView,
) -> Seq<(Seq<char>, JsonView)> {
    let p = place_of(m, name);
    if p < m.len() {
        m.update(p as int, (name, value))
    } else {
        m.push((name, value))
    }
}

proof fn lemma_place(m: Seq<(Seq<char>, JsonView)>, name: Seq<char>, p: int)
    requires
        0 <= p <= m.len(),
        forall|i: int| 0 <= i < p ==> (#[trigger] m[i]).0 != name,
        p < m.len() ==> m[p].0 == name,
    ensures
        place_of(m, name) == p,
        lookup(m, name) == (if p < m.len() {
            Some(m[p].1)
        } else {
            None
        }),
    decreases m.len(),
{
    if m.len() > 0 && p > 0 {
        assert(m[0].0 != name);
        let t = m.skip(1);
        assert forall|i: int| 0 <= i < p - 1 implies (#[trigger] t[i]).0 != name by {
            assert(t[i] == m[i + 1]);
        }
        lemma_place(t, name, p - 1);
    }
}

/// The place of a name in an object, or the number of entries.
pub fn find_entry(m: &Vec<(String, Json)>, name: &str) -> (p: usize)
    ensures
        p == place_of(entry_views(m@), name@),
        p <= m@.len(),
        p < m@.len() ==> m@[p as int].0@ == name@,
        lookup(entry_views(m@), name@) == (if p < m@.len() {
            Some(json_view(m@[p as int].1))
        } else {
            None
        }),
{
    let ghost all = entry_views(m@);
    for i in 0..m.len()
        invariant
            all == entry_views(m@),
            forall|j: int| 0 <= j < i ==> (#[trigger] all[j]).0 != name@,
    {
        if same(m[i].0.as_str(), name) {
            proof {
                lemma_place(all, name@, i as int);
            }
            return i;
        }
    }
    proof {
        lemma_place(all, name@, m@.len() as int);
    }
    m.len()
}

/// Puts a name into an object.
pub fn insert_entry(m: &mut Vec<(String, Json)>, name: &str, value: Json)
    ensures
        entry_views(final(m)@) == with_entry(entry_views(old(m)@), name@, value@),
{
    let p: usize = find_entry(m, name);
    let ghost before = entry_views(m@);
    let ghost v = value@;
    if p < m.len() {
        m.set(p, (name.to_owned(), value));
        assert(entry_views(m@) =~= before.update(p as int, (name@, v)));
    } else {
        m.push((name.to_owned(), value));
        assert(entry_views(m@) =~= before.push((name@, v)));
    }
}

/// Takes a name out of an object.
pub fn remove_entry(m: Vec<(String, Json)>, name: &str) -> (r: Vec<(String, Json)>)
    ensures
        entry_views(r@) == without(entry_views(m@), name@),
{
    let mut out: Vec<(String, Json)> = Vec::new();
    let ghost all = entry_views(m@);
    assert(all.take(0) =~= Seq::<(Seq<char>, JsonView)>::empty());
    assert(entry_views(out@) =~= without(all.take(0), name@));
    for i in 0..m.len()
        invariant
            all == entry_views(m@),
            entry_views(out@) == without(all.take(i as int), name@),
    {
        assert(all.take(i + 1).drop_last() =~= all.take(i as int));
        assert(all.take(i + 1).last() == all[i as int]);
        let (key, value) = &m[i];
        if !same(key.as_str(), name) {
            let ghost before = entry_views(out@);
            out.push((key.clone(), copy_json(value)));
            assert(entry_views(out@) =~= before.push(all[i as int]));
        }
    }
    assert(all.take(all.len() as int) =~= all);
    out
}

impl Json {
    /// The value of a name in an object.
    pub fn get(&self, name: &str) -> (r: Option<&Json>)
        ensures
            match r {
                Some(v) => self@ is Object && lookup(self@->Object_0, name@) == Some(v@),
                None => self@ is Object ==> lookup(self@->Object_0, name@) is None,
            },
    {
        proof {
            lemma_json_parts(*self);
        }
        match self {
            Json::Object(m) => {
                let p: usize = find_entry(m, name);
                if p < m.len() {
                    Some(&m[p].1)
                } else {
                    None
                }
            },
            _ => None,
        }
    }

    /// The text of a value that is one.
    pub fn as_str(&self) -> (r: Option<&str>)
        ensures
            match r {
                Some(s) => self@ == JsonView::Text(s@),
                None => !(self@ is Text),
            },
    {
        match self {
            Json::Text(s) => Some(s.as_str()),
            _ => None,
        }
    }

    /// The truth value of a value that is one.
    pub fn as_bool(&self) -> (r: Option<bool>)
        ensures
            match r {
                Some(b) => self@ == JsonView::Bool(b),
                None => !(self@ is Bool),
            },
    {
        match self {
            Json::Bool(b) => Some(*b),
            _ => None,
        }
    }
}

/// A value as JSON writes it, without white space.
pub open spec fn json_text(v: JsonView) -> Seq<char>
    decreases v, 0nat,
{
    match v {
        JsonView::Null => "null"@,
        JsonView::Bool(b) => if b {
            "true"@
        } else {
            "false"@
        },
        JsonView::Number(n) => n,
        JsonView::Text(s) => json_quoted(s),
        JsonView::List(s) => "["@ + items_text(s, s.len()) + "]"@,
        JsonView::Object(m) => "{"@ + entries_text(m, m.len()) + "}"@,
    }
}

/// The first `n` values of a list, with commas between them.
pub open spec fn items_text(s: Seq<JsonView>, n: nat) -> Seq<char>
    decreases s, n,
{
    if n == 0 || n > s.len() {
        Seq::empty()
    } else if n == 1 {
        json_text(s[0])
    } else {
        items_text(s, (n - 1) as nat) + ","@ + json_text(s[n - 1])
    }
}

/// The first `n` entries of an object, with commas between them.
pub open spec fn entries_text(m: Seq<(Seq<char>, JsonView)>, n: nat) -> Seq<char>
    decreases m, n,
{
    if n == 0 || n > m.len() {
        Seq::empty()
    } else if n == 1 {
        json_quoted(m[0].0) + ":"@ + json_text(m[0].1)
    } else {
        entries_text(m, (n - 1) as nat) + ","@ + (json_quoted(m[n - 1].0) + ":"@ + json_text(
            m[n - 1].1,
        ))
    }
}

/// Writes a value as JSON, without white space.
pub fn write_json(j: &Json) -> (r: String)
    ensures
        r@ == json_text(j@),
    decreases j,
{
    proof {
        lemma_json_parts(*j);
    }
    match j {
        Json::Null => "null".to_owned(),
        Json::Bool(b) => if *b {
            "true".to_owned()
        } else {
            "false".to_owned()
        },
        Json::Number(n) => n.clone(),
        Json::Text(s) => quote_json(s.as_str()),
        Json::List(v) => {
            let mut body = String::new();
            for i in 0..v.len()
                invariant
                    *j == Json::List(*v),
                    body@ == items_text(item_views(v@), i as nat),
            {
                assert(decreases_to!(*j => j->List_0));
                assert(decreases_to!(*v => v[i as int]));
                if i > 0 {
                    body.append(",");
                }
                let item = write_json(&v[i]);
                assert(item_views(v@)[i as int] == json_view(v@[i as int]));
                body.append(item.as_str());
                if i == 0 {
                    assert(body@ =~= json_text(item_views(v@)[0]));
                }
            }
            let mut out = "[".to_owned();
            out.append(body.as_str());
            out.append("]");
            out
        },
        Json::Object(m) => {
            let mut body = String::new();
            for i in 0..m.len()
                invariant
                    *j == Json::Object(*m),
                    body@ == entries_text(entry_views(m@), i as nat),
            {
                assert(decreases_to!(*j => j->Object_0));
                assert(decreases_to!(*m => m[i as int]));
                assert(decreases_to!(m[i as int] => m[i as int].1));
                let (name, value) = &m[i];
                let mut entry = quote_json(name.as_str());
                entry.append(":");
                let shown = write_json(value);
                entry.append(shown.as_str());
                assert(entry_views(m@)[i as int] == (name@, json_view(*value)));
                if i > 0 {
                    body.append(",");
                }
                body.append(entry.as_str());
                if i == 0 {
                    assert(body@ =~= entry@);
                }
            }
            let mut out = "{".to_owned();
            out.append(body.as_str());
            out.append("}");
            out
        },
    }
}

/// A text as JSON writes it, with its quotes.
pub fn quote_json(text: &str) -> (r: String)
    ensures
        r@ == json_quoted(text@),
{
    match json_string(text) {
        Ok(s) => s,
        Err(_) => String::new(),
    }
}

} // verus!
