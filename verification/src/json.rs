//! JSON values and what the library reads in them.

use vstd::prelude::*;

verus! {

/// A JSON value.
pub enum Json {
    Null,
    Bool(bool),
    /// A number: its value where it is a whole number of 64 bits without a sign, and its
    /// text.
    Number { unsigned: Option<u64>, text: String },
    Str(String),
    Array(Vec<Json>),
    /// Names and values, in the order of the object.
    Object(Vec<(String, Json)>),
}

/// What a JSON value stands for.
pub enum JsonView {
    Null,
    Bool(bool),
    Number { unsigned: Option<u64>, text: Seq<char> },
    Str(Seq<char>),
    Array(Seq<JsonView>),
    Object(Seq<(Seq<char>, JsonView)>),
}

impl View for Json {
    type V = JsonView;

    open spec fn view(&self) -> JsonView {
        tree(*self)
    }
}

/// What `v` stands for.
pub open spec fn tree(v: Json) -> JsonView
    decreases v,
{
    match v {
        Json::Null => JsonView::Null,
        Json::Bool(b) => JsonView::Bool(b),
        Json::Number { unsigned, text } => JsonView::Number { unsigned, text: text@ },
        Json::Str(s) => JsonView::Str(s@),
        Json::Array(items) => JsonView::Array(
            Seq::new(
                items@.len(),
                |i: int|
                    if 0 <= i < items@.len() {
                        tree(items@[i])
                    } else {
                        JsonView::Null
                    },
            ),
        ),
        Json::Object(fields) => JsonView::Object(
            Seq::new(
                fields@.len(),
                |i: int|
                    if 0 <= i < fields@.len() {
                        (fields@[i].0@, tree(fields@[i].1))
                    } else {
                        (Seq::empty(), JsonView::Null)
                    },
            ),
        ),
    }
}

/// A JSON value of `serde_json`.
#[verifier::external_type_specification]
#[verifier::external_body]
pub struct ExValue(serde_json::Value);

/// The JSON value that a `serde_json::Value` holds.
pub uninterp spec fn held(v: serde_json::Value) -> JsonView;

/// What `serde_json::from_str` makes of a text: a JSON value, or nothing where the text is
/// not JSON.
pub uninterp spec fn parsed(text: Seq<char>) -> Option<JsonView>;

/// The outermost layer of a `serde_json::Value`.
enum Layer {
    Null,
    Bool(bool),
    Number(Option<u64>, String),
    Str(String),
    Array(Vec<serde_json::Value>),
    Object(Vec<(String, serde_json::Value)>),
}

/// The JSON value of which `layer` is the outermost layer.
spec fn under(layer: Layer) -> JsonView {
    match layer {
        Layer::Null => JsonView::Null,
        Layer::Bool(b) => JsonView::Bool(b),
        Layer::Number(unsigned, text) => JsonView::Number { unsigned, text: text@ },
        Layer::Str(s) => JsonView::Str(s@),
        Layer::Array(items) => JsonView::Array(
            items@.map_values(|v: serde_json::Value| held(v)),
        ),
        Layer::Object(fields) => JsonView::Object(
            fields@.map_values(|f: (String, serde_json::Value)| (f.0@, held(f.1))),
        ),
    }
}

/// `serde_json::from_str::<serde_json::Value>`: which texts are JSON, and what value each
/// of them is, depends on the text alone.
#[verifier::external_body]
fn parse_value(text: &str) -> (r: Option<serde_json::Value>)
    ensures
        r matches Some(v) ==> parsed(text@) == Some(held(v)),
        r is None ==> parsed(text@) is None,
{
    serde_json::from_str::<serde_json::Value>(text).ok()
}

/// The variants of `serde_json::Value`: a value holds what its variant carries, an array
/// its items and an object its names and values in the order in which `serde_json::Map`
/// hands them out. Of a number it holds `Number::as_u64` and the text under `Display`; how
/// these two are related is left unsaid.
#[verifier::external_body]
fn outer_layer(v: serde_json::Value) -> (r: Layer)
    ensures
        held(v) == under(r),
{
    match v {
        serde_json::Value::Null => Layer::Null,
        serde_json::Value::Bool(b) => Layer::Bool(b),
        serde_json::Value::Number(n) => Layer::Number(n.as_u64(), n.to_string()),
        serde_json::Value::String(s) => Layer::Str(s),
        serde_json::Value::Array(items) => Layer::Array(items),
        serde_json::Value::Object(fields) => Layer::Object(fields.into_iter().collect()),
    }
}

/// The JSON value that `v` holds.
fn from_value(v: serde_json::Value) -> (r: Json)
    ensures
        r@ == held(v),
    decreases held(v),
{
    let layer = outer_layer(v);
    match layer {
        Layer::Null => Json::Null,
        Layer::Bool(b) => Json::Bool(b),
        Layer::Number(unsigned, text) => Json::Number { unsigned, text },
        Layer::Str(s) => Json::Str(s),
        Layer::Array(items) => {
            let mut out: Vec<Json> = Vec::new();
            let ghost all = items@;
            for item in it: items
                invariant
                    it.seq() == all,
                    held(v) == JsonView::Array(all.map_values(|v: serde_json::Value| held(v))),
                    out@.len() == it.index(),
                    forall|i: int| 0 <= i < out@.len() ==> (#[trigger] out@[i])@ == held(all[i]),
            {
                let ghost k = it.index();
                assert(held(v)->Array_0[k] == held(item));
                out.push(from_value(item));
            }
            assert(Json::Array(out)@->Array_0 =~= held(v)->Array_0);
            Json::Array(out)
        },
        Layer::Object(fields) => {
            let mut out: Vec<(String, Json)> = Vec::new();
            let ghost all = fields@;
            for field in it: fields
                invariant
                    it.seq() == all,
                    held(v) == JsonView::Object(
                        all.map_values(|f: (String, serde_json::Value)| (f.0@, held(f.1))),
                    ),
                    out@.len() == it.index(),
                    forall|i: int|
                        0 <= i < out@.len() ==> (#[trigger] out@[i]).0@ == all[i].0@ && out@[i].1@
                            == held(all[i].1),
            {
                let ghost k = it.index();
                assert(held(v)->Object_0[k].1 == held(field.1));
                let (name, value) = field;
                out.push((name, from_value(value)));
            }
            assert(Json::Object(out)@->Object_0 =~= held(v)->Object_0);
            Json::Object(out)
        },
    }
}

/// Reads a text as JSON.
pub fn parse_json(text: &str) -> (r: Option<Json>)
    ensures
        r is Some <==> parsed(text@) is Some,
        r matches Some(v) ==> parsed(text@) == Some(v@),
{
    match parse_value(text) {
        Some(v) => Some(from_value(v)),
        None => None,
    }
}

/// The value that stands first under `name`.
pub open spec fn find_field(fields: Seq<(Seq<char>, JsonView)>, name: Seq<char>) -> Option<JsonView>
    decreases fields.len(),
{
    if fields.len() == 0 {
        None
    } else if fields.first().0 == name {
        Some(fields.first().1)
    } else {
        find_field(fields.drop_first(), name)
    }
}

/// The field `name` of an object; nothing in any other value.
pub open spec fn field(v: JsonView, name: Seq<char>) -> Option<JsonView> {
    match v {
        JsonView::Object(fields) => find_field(fields, name),
        _ => None,
    }
}

/// The text of a string; nothing in any other value.
pub open spec fn string_in(v: JsonView) -> Option<Seq<char>> {
    match v {
        JsonView::Str(s) => Some(s),
        _ => None,
    }
}

/// The items of an array; nothing in any other value.
pub open spec fn items_in(v: JsonView) -> Option<Seq<JsonView>> {
    match v {
        JsonView::Array(items) => Some(items),
        _ => None,
    }
}

/// The value of a whole number without a sign; nothing in any other value.
pub open spec fn unsigned_in(v: JsonView) -> Option<u64> {
    match v {
        JsonView::Number { unsigned, .. } => unsigned,
        _ => None,
    }
}

/// The text of the field `name`, where it is a string.
pub open spec fn text_field(v: JsonView, name: Seq<char>) -> Option<Seq<char>> {
    match field(v, name) {
        Some(f) => string_in(f),
        None => None,
    }
}

/// The text of the field `name`, or the empty text.
pub open spec fn text_field_or_empty(v: JsonView, name: Seq<char>) -> Seq<char> {
    match text_field(v, name) {
        Some(s) => s,
        None => Seq::empty(),
    }
}

/// The value of the field `name`, where it is a whole number without a sign.
pub open spec fn unsigned_field(v: JsonView, name: Seq<char>) -> Option<u64> {
    match field(v, name) {
        Some(f) => unsigned_in(f),
        None => None,
    }
}

/// The view of an optional text.
pub open spec fn optional_text(s: Option<String>) -> Option<Seq<char>> {
    match s {
        Some(s) => Some(s@),
        None => None,
    }
}

/// The view of an optional JSON value.
pub open spec fn optional_json(v: Option<Json>) -> Option<JsonView> {
    match v {
        Some(v) => Some(v@),
        None => None,
    }
}

impl Json {
    /// The field `name` of an object.
    pub fn get(&self, name: &str) -> (r: Option<&Json>)
        ensures
            r is Some <==> field(self@, name@) is Some,
            r matches Some(v) ==> field(self@, name@) == Some(v@),
    {
        match self {
            Json::Object(fields) => {
                let ghost all = self@->Object_0;
                let wanted: String = name.to_string();
                let mut i: usize = 0;
                assert(all.skip(0) == all);
                while i < fields.len()
                    invariant
                        i <= fields@.len(),
                        all.len() == fields@.len(),
                        all == self@->Object_0,
                        self == Json::Object(*fields),
                        wanted@ == name@,
                        find_field(all, name@) == find_field(all.skip(i as int), name@),
                    decreases fields@.len() - i,
                {
                    assert(all[i as int] == (fields@[i as int].0@, fields@[i as int].1@));
                    assert(all.skip(i as int).drop_first() == all.skip(i + 1));
                    if fields[i].0 == wanted {
                        return Some(&fields[i].1);
                    }
                    i += 1;
                }
                None
            },
            _ => None,
        }
    }

    /// The text of a string.
    pub fn as_str(&self) -> (r: Option<&String>)
        ensures
            r is Some <==> string_in(self@) is Some,
            r matches Some(s) ==> string_in(self@) == Some(s@),
    {
        match self {
            Json::Str(s) => Some(s),
            _ => None,
        }
    }

    /// The value of a whole number without a sign.
    pub fn as_u64(&self) -> (r: Option<u64>)
        ensures
            r == unsigned_in(self@),
    {
        match self {
            Json::Number { unsigned, .. } => *unsigned,
            _ => None,
        }
    }

    /// The text of the field `name`, where it is a string.
    pub fn get_text(&self, name: &str) -> (r: Option<String>)
        ensures
            optional_text(r) == text_field(self@, name@),
    {
        match self.get(name) {
            Some(v) => match v.as_str() {
                Some(s) => Some(s.clone()),
                None => None,
            },
            None => None,
        }
    }

    /// The text of the field `name`, or the empty text.
    pub fn get_text_or_empty(&self, name: &str) -> (r: String)
        ensures
            r@ == text_field_or_empty(self@, name@),
    {
        match self.get_text(name) {
            Some(s) => s,
            None => String::new(),
        }
    }

    /// The value of the field `name`, where it is a whole number without a sign.
    pub fn get_u64(&self, name: &str) -> (r: Option<u64>)
        ensures
            r == unsigned_field(self@, name@),
    {
        match self.get(name) {
            Some(v) => v.as_u64(),
            None => None,
        }
    }

    /// A copy of this value.
    pub fn copy(&self) -> (r: Json)
        ensures
            r@ == self@,
        decreases self@,
    {
        match self {
            Json::Null => Json::Null,
            Json::Bool(b) => Json::Bool(*b),
            Json::Number { unsigned, text } => Json::Number {
                unsigned: *unsigned,
                text: text.clone(),
            },
            Json::Str(s) => Json::Str(s.clone()),
            Json::Array(items) => {
                let mut out: Vec<Json> = Vec::new();
                let mut i: usize = 0;
                while i < items.len()
                    invariant
                        i <= items@.len(),
                        out@.len() == i,
                        self == Json::Array(*items),
                        forall|j: int| 0 <= j < i ==> (#[trigger] out@[j])@ == items@[j]@,
                    decreases items@.len() - i,
                {
                    let item: &Json = &items[i];
                    assert(self@->Array_0[i as int] == item@);
                    out.push(item.copy());
                    i += 1;
                }
                assert(Json::Array(out)@->Array_0 =~= self@->Array_0);
                Json::Array(out)
            },
            Json::Object(fields) => {
                let mut out: Vec<(String, Json)> = Vec::new();
                let mut i: usize = 0;
                while i < fields.len()
                    invariant
                        i <= fields@.len(),
                        out@.len() == i,
                        self == Json::Object(*fields),
                        forall|j: int|
                            0 <= j < i ==> (#[trigger] out@[j]).0@ == fields@[j].0@ && out@[j].1@
                                == fields@[j].1@,
                    decreases fields@.len() - i,
                {
                    let value: &Json = &fields[i].1;
                    assert(self@->Object_0[i as int].1 == value@);
                    out.push((fields[i].0.clone(), value.copy()));
                    i += 1;
                }
                assert(Json::Object(out)@->Object_0 =~= self@->Object_0);
                Json::Object(out)
            },
        }
    }
}

} // verus!
