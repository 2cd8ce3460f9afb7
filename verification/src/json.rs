//! JSON values.
//!
//! The crate's own tree type, which contracts can speak of. Text is parsed and
//! written by `serde_json`.

use crate::text::same;
use vstd::prelude::*;

verus! {

/// A JSON number that is no integer of 64 bits. It is carried, never computed
/// with.
#[verifier::external_type_specification]
#[verifier::external_body]
pub struct ExNumber(serde_json::Number);

/// The tree type of `serde_json`. It is turned into a [`Json`] and back.
#[verifier::external_type_specification]
#[verifier::external_body]
pub struct ExValue(serde_json::Value);

/// A JSON value.
pub enum Json {
    Null,
    Bool(bool),
    Unsigned(u64),
    Negative(i64),
    Fraction(serde_json::Number),
    Text(String),
    Array(Vec<Json>),
    Object(Vec<(String, Json)>),
}

/// What a JSON value is, as contracts speak of it.
pub enum JsonView {
    Null,
    Bool(bool),
    Unsigned(u64),
    Negative(i64),
    Fraction(serde_json::Number),
    Text(Seq<char>),
    Array(Seq<JsonView>),
    Object(Seq<(Seq<char>, JsonView)>),
}

/// The tree that a JSON value is.
pub open spec fn tree(j: Json) -> JsonView
    decreases j,
{
    match j {
        Json::Null => JsonView::Null,
        Json::Bool(b) => JsonView::Bool(b),
        Json::Unsigned(n) => JsonView::Unsigned(n),
        Json::Negative(n) => JsonView::Negative(n),
        Json::Fraction(n) => JsonView::Fraction(n),
        Json::Text(s) => JsonView::Text(s@),
        Json::Array(v) => JsonView::Array(
            Seq::new(
                v@.len(),
                |i: int| if 0 <= i < v@.len() { tree(v@[i]) } else { JsonView::Null },
            ),
        ),
        Json::Object(v) => JsonView::Object(
            Seq::new(
                v@.len(),
                |i: int|
                    if 0 <= i < v@.len() {
                        (v@[i].0@, tree(v@[i].1))
                    } else {
                        (Seq::<char>::empty(), JsonView::Null)
                    },
            ),
        ),
    }
}

impl View for Json {
    type V = JsonView;

    open spec fn view(&self) -> JsonView {
        tree(*self)
    }
}

// ------------------------------------------------------------- text and tree

/// The tree that `serde_json` reads out of a text, or what it says is wrong.
pub uninterp spec fn parsed_json(text: Seq<char>) -> Result<JsonView, Seq<char>>;

/// `serde_json::from_str` to a `serde_json::Value`, and the `Display` text of
/// its error: both depend on the text alone.
#[verifier::external_body]
pub(crate) fn parse(text: &str) -> (r: Result<Json, String>)
    ensures
        match r {
            Ok(v) => parsed_json(text@) == Ok::<JsonView, Seq<char>>(v@),
            Err(e) => parsed_json(text@) == Err::<JsonView, Seq<char>>(e@),
        },
{
    serde_json::from_str::<serde_json::Value>(text).map(of_value).map_err(|e| e.to_string())
}

/// A `serde_json::Value` as a `Json`, variant by variant. Nothing is claimed of
/// the result.
#[verifier::external_body]
fn of_value(v: serde_json::Value) -> (r: Json) {
    match v {
        serde_json::Value::Null => Json::Null,
        serde_json::Value::Bool(b) => Json::Bool(b),
        serde_json::Value::Number(n) => match (n.as_u64(), n.as_i64()) {
            (Some(u), _) => Json::Unsigned(u),
            (None, Some(i)) => Json::Negative(i),
            (None, None) => Json::Fraction(n),
        },
        serde_json::Value::String(s) => Json::Text(s),
        serde_json::Value::Array(a) => Json::Array(a.into_iter().map(of_value).collect()),
        serde_json::Value::Object(m) => Json::Object(m.into_iter().map(|(k, v)| (k, of_value(v))).collect()),
    }
}

/// The text that `serde_json` writes for a tree.
pub uninterp spec fn json_text(v: JsonView) -> Seq<char>;

/// The `Display` text of a `serde_json::Value`: it depends on the tree alone.
#[verifier::external_body]
pub(crate) fn text_of(v: &Json) -> (r: String)
    ensures
        r@ == json_text(v@),
{
    to_value(v).to_string()
}

/// A `Json` as a `serde_json::Value`, variant by variant. Nothing is claimed of
/// the result.
#[verifier::external_body]
fn to_value(v: &Json) -> (r: serde_json::Value) {
    match v {
        Json::Null => serde_json::Value::Null,
        Json::Bool(b) => serde_json::Value::Bool(*b),
        Json::Unsigned(n) => serde_json::Value::from(*n),
        Json::Negative(n) => serde_json::Value::from(*n),
        Json::Fraction(n) => serde_json::Value::Number(n.clone()),
        Json::Text(s) => serde_json::Value::String(s.clone()),
        Json::Array(a) => serde_json::Value::Array(a.iter().map(to_value).collect()),
        Json::Object(m) => serde_json::Value::Object(m.iter().map(|(k, v)| (k.clone(), to_value(v))).collect()),
    }
}

impl Json {
    /// The value that a text holds, or what is wrong with it.
    pub fn from_text(text: &str) -> (r: Result<Json, String>)
        ensures
            match r {
                Ok(v) => parsed_json(text@) == Ok::<JsonView, Seq<char>>(v@),
                Err(e) => parsed_json(text@) == Err::<JsonView, Seq<char>>(e@),
            },
    {
        parse(text)
    }

    /// The value as text.
    pub fn to_text(&self) -> (r: String)
        ensures
            r@ == json_text(self@),
    {
        text_of(self)
    }
}

// ------------------------------------------------------------------- reading

/// The value of the last field named `key`.
pub open spec fn field(fields: Seq<(Seq<char>, JsonView)>, key: Seq<char>) -> Option<JsonView>
    decreases fields.len(),
{
    if fields.len() == 0 {
        None
    } else if fields.last().0 == key {
        Some(fields.last().1)
    } else {
        field(fields.drop_last(), key)
    }
}

/// The field of an object named `key`; `None` where there is none, and for a
/// value that is no object.
pub open spec fn get(v: JsonView, key: Seq<char>) -> Option<JsonView> {
    match v {
        JsonView::Object(fields) => field(fields, key),
        _ => None,
    }
}

/// The text of a value that is a text.
pub open spec fn as_text(v: Option<JsonView>) -> Option<Seq<char>> {
    match v {
        Some(JsonView::Text(s)) => Some(s),
        _ => None,
    }
}

/// The text in the field `key`.
pub open spec fn get_text(v: JsonView, key: Seq<char>) -> Option<Seq<char>> {
    as_text(get(v, key))
}

/// The text in the field `key`, empty where there is none.
pub open spec fn get_text_or_empty(v: JsonView, key: Seq<char>) -> Seq<char> {
    match get_text(v, key) {
        Some(s) => s,
        None => Seq::empty(),
    }
}

/// The field `key` is `true`.
pub open spec fn is_true(v: JsonView, key: Seq<char>) -> bool {
    get(v, key) == Some(JsonView::Bool(true))
}

/// The items in the field `key`, none where it is no array.
pub open spec fn get_items(v: JsonView, key: Seq<char>) -> Seq<JsonView> {
    match get(v, key) {
        Some(JsonView::Array(items)) => items,
        _ => Seq::empty(),
    }
}

/// A field that is not named is not there.
pub proof fn lemma_field_absent(fields: Seq<(Seq<char>, JsonView)>, key: Seq<char>)
    requires
        forall|i: int| 0 <= i < fields.len() ==> (#[trigger] fields[i]).0 != key,
    ensures
        field(fields, key) is None,
    decreases fields.len(),
{
    if fields.len() > 0 {
        assert(fields[fields.len() - 1].0 != key);
        assert forall|i: int| 0 <= i < fields.drop_last().len() implies (
        #[trigger] fields.drop_last()[i]).0 != key by {
            assert(fields[i].0 != key);
        }
        lemma_field_absent(fields.drop_last(), key);
    }
}

/// The tree held by an optional value.
pub open spec fn opt_tree(o: Option<Json>) -> Option<JsonView> {
    match o {
        Some(j) => Some(j@),
        None => None,
    }
}

/// The trees held by a list.
pub open spec fn trees(v: Seq<Json>) -> Seq<JsonView> {
    v.map_values(|j: Json| j@)
}

impl Json {
    /// The field of an object named `key`.
    pub fn get(&self, key: &str) -> (r: Option<&Json>)
        ensures
            match r {
                Some(v) => get(self@, key@) == Some(v@),
                None => get(self@, key@) is None,
            },
    {
        match self {
            Json::Object(fields) => {
                let ghost fs = self@->Object_0;
                let mut i: usize = fields.len();
                assert(fs.take(i as int) =~= fs);
                while i > 0
                    invariant
                        self@ == JsonView::Object(fs),
                        *self == Json::Object(*fields),
                        fs.len() == fields@.len(),
                        forall|k: int|
                            0 <= k < fs.len() ==> #[trigger] fs[k] == (
                                fields@[k].0@,
                                fields@[k].1@,
                            ),
                        i <= fields@.len(),
                        field(fs, key@) == field(fs.take(i as int), key@),
                    decreases i,
                {
                    assert(fs.take(i as int).drop_last() =~= fs.take(i - 1));
                    assert(fs.take(i as int).last() == fs[i - 1]);
                    if same(&fields[i - 1].0, key) {
                        return Some(&fields[i - 1].1);
                    }
                    i = i - 1;
                }
                None
            },
            _ => None,
        }
    }

    /// The text in the field `key`.
    pub fn get_text(&self, key: &str) -> (r: Option<&String>)
        ensures
            match r {
                Some(s) => get_text(self@, key@) == Some(s@),
                None => get_text(self@, key@) is None,
            },
    {
        match self.get(key) {
            Some(Json::Text(s)) => Some(s),
            _ => None,
        }
    }

    /// The text in the field `key`, empty where there is none.
    pub fn get_text_or_empty(&self, key: &str) -> (r: String)
        ensures
            r@ == get_text_or_empty(self@, key@),
    {
        match self.get_text(key) {
            Some(s) => s.clone(),
            None => String::new(),
        }
    }

    /// Whether the field `key` is `true`.
    pub fn is_true(&self, key: &str) -> (r: bool)
        ensures
            r == is_true(self@, key@),
    {
        match self.get(key) {
            Some(Json::Bool(b)) => *b,
            _ => false,
        }
    }

    /// The items in the field `key`; `None` where it is no array.
    pub fn get_items(&self, key: &str) -> (r: Option<&Vec<Json>>)
        ensures
            match r {
                Some(v) => get(self@, key@) == Some(JsonView::Array(trees(v@))),
                None => !(get(self@, key@) matches Some(JsonView::Array(_))),
            },
            match r {
                Some(v) => get_items(self@, key@) == trees(v@),
                None => get_items(self@, key@).len() == 0,
            },
    {
        match self.get(key) {
            Some(j) => match j {
                Json::Array(v) => {
                    assert(j@->Array_0 =~= trees(v@));
                    Some(v)
                },
                _ => None,
            },
            None => None,
        }
    }
}

// ------------------------------------------------------------------- copying

/// `serde_json::Number::clone`, which is derived: the copy is the same number.
#[verifier::external_body]
fn copy_number(n: &serde_json::Number) -> (r: serde_json::Number)
    ensures
        r == *n,
{
    n.clone()
}

impl Json {
    /// A value with the same tree.
    pub fn copy(&self) -> (r: Json)
        ensures
            r@ == self@,
        decreases self,
    {
        match self {
            Json::Null => Json::Null,
            Json::Bool(b) => Json::Bool(*b),
            Json::Unsigned(n) => Json::Unsigned(*n),
            Json::Negative(n) => Json::Negative(*n),
            Json::Fraction(n) => Json::Fraction(copy_number(n)),
            Json::Text(s) => Json::Text(s.clone()),
            Json::Array(v) => {
                let mut out: Vec<Json> = Vec::new();
                let mut i: usize = 0;
                while i < v.len()
                    invariant
                        *self == Json::Array(*v),
                        i <= v@.len(),
                        out@.len() == i,
                        forall|k: int| 0 <= k < i ==> #[trigger] out@[k]@ == v@[k]@,
                    decreases v@.len() - i,
                {
                    proof {
                        assert(decreases_to!(*self => self->Array_0));
                        assert(decreases_to!(*v => v@));
                        assert(decreases_to!(v@ => v@[i as int]));
                    }
                    out.push(v[i].copy());
                    i = i + 1;
                }
                let r = Json::Array(out);
                assert forall|k: int| 0 <= k < v@.len() implies #[trigger] tree(r)->Array_0[k]
                    == tree(*self)->Array_0[k] by {
                    assert(out@[k]@ == v@[k]@);
                }
                assert(r@->Array_0 =~= self@->Array_0);
                r
            },
            Json::Object(v) => {
                let mut out: Vec<(String, Json)> = Vec::new();
                let mut i: usize = 0;
                while i < v.len()
                    invariant
                        *self == Json::Object(*v),
                        i <= v@.len(),
                        out@.len() == i,
                        forall|k: int|
                            0 <= k < i ==> (#[trigger] out@[k]).0@ == v@[k].0@ && out@[k].1@
                                == v@[k].1@,
                    decreases v@.len() - i,
                {
                    proof {
                        assert(decreases_to!(*self => self->Object_0));
                        assert(decreases_to!(*v => v@));
                        assert(decreases_to!(v@ => v@[i as int]));
                        assert(decreases_to!(v@[i as int] => v@[i as int].1));
                    }
                    out.push((v[i].0.clone(), v[i].1.copy()));
                    i = i + 1;
                }
                let r = Json::Object(out);
                assert(r@->Object_0 =~= self@->Object_0);
                r
            },
        }
    }
}

// ------------------------------------------------------------------ building

/// The object without fields.
pub open spec fn no_fields() -> JsonView {
    JsonView::Object(Seq::empty())
}

/// The array without items.
pub open spec fn no_items() -> JsonView {
    JsonView::Array(Seq::empty())
}

/// An object with one field more, at its end.
pub open spec fn with_field(o: JsonView, key: Seq<char>, v: JsonView) -> JsonView {
    match o {
        JsonView::Object(fields) => JsonView::Object(fields.push((key, v))),
        _ => o,
    }
}

/// An array with one item more, at its end.
pub open spec fn with_item(a: JsonView, v: JsonView) -> JsonView {
    match a {
        JsonView::Array(items) => JsonView::Array(items.push(v)),
        _ => a,
    }
}

/// The array of the given texts.
pub open spec fn text_array(items: Seq<Seq<char>>) -> JsonView {
    JsonView::Array(items.map_values(|s: Seq<char>| JsonView::Text(s)))
}

/// A text, or null.
pub open spec fn text_or_null(o: Option<Seq<char>>) -> JsonView {
    match o {
        Some(s) => JsonView::Text(s),
        None => JsonView::Null,
    }
}

impl Json {
    pub fn object() -> (r: Json)
        ensures
            r@ == no_fields(),
    {
        let r = Json::Object(Vec::new());
        assert(r@->Object_0 =~= Seq::empty());
        r
    }

    pub fn array() -> (r: Json)
        ensures
            r@ == no_items(),
    {
        let r = Json::Array(Vec::new());
        assert(r@->Array_0 =~= Seq::empty());
        r
    }

    pub fn text(s: &str) -> (r: Json)
        ensures
            r@ == JsonView::Text(s@),
    {
        Json::Text(s.to_owned())
    }

    pub fn with(self, key: &str, v: Json) -> (r: Json)
        ensures
            r@ == with_field(self@, key@, v@),
    {
        let ghost was = self@;
        match self {
            Json::Object(mut fields) => {
                fields.push((key.to_owned(), v));
                let r = Json::Object(fields);
                assert(r@->Object_0 =~= was->Object_0.push((key@, v@)));
                r
            },
            other => other,
        }
    }

    pub fn with_text(self, key: &str, s: &str) -> (r: Json)
        ensures
            r@ == with_field(self@, key@, JsonView::Text(s@)),
    {
        self.with(key, Json::text(s))
    }

    pub fn and(self, v: Json) -> (r: Json)
        ensures
            r@ == with_item(self@, v@),
    {
        let ghost was = self@;
        match self {
            Json::Array(mut items) => {
                items.push(v);
                let r = Json::Array(items);
                assert(r@->Array_0 =~= was->Array_0.push(v@));
                r
            },
            other => other,
        }
    }

    /// The array of the given items.
    pub fn list(items: Vec<Json>) -> (r: Json)
        ensures
            r@ == JsonView::Array(trees(items@)),
    {
        let r = Json::Array(items);
        assert(r@->Array_0 =~= trees(items@));
        r
    }

    /// A count.
    pub fn count(n: usize) -> (r: Json)
        ensures
            r@ == JsonView::Unsigned(n as u64),
    {
        Json::Unsigned(n as u64)
    }

    /// The array of the given texts.
    pub fn texts(v: &[String]) -> (r: Json)
        ensures
            r@ == text_array(crate::text::texts(v@)),
    {
        let ghost want = text_array(crate::text::texts(v@))->Array_0;
        let mut items: Vec<Json> = Vec::new();
        let mut i: usize = 0;
        while i < v.len()
            invariant
                i <= v@.len(),
                want == text_array(crate::text::texts(v@))->Array_0,
                trees(items@) == want.take(i as int),
            decreases v@.len() - i,
        {
            let ghost before = trees(items@);
            items.push(Json::text(&v[i]));
            assert(trees(items@) =~= before.push(JsonView::Text(v@[i as int]@)));
            assert(want.take(i + 1) =~= want.take(i as int).push(want[i as int]));
            i = i + 1;
        }
        let r = Json::Array(items);
        assert(r@->Array_0 =~= trees(items@));
        assert(want.take(v@.len() as int) =~= want);
        r
    }

    pub fn text_or_null(o: &Option<String>) -> (r: Json)
        ensures
            r@ == text_or_null(crate::text::opt_text(*o)),
    {
        match o {
            Some(s) => Json::text(s),
            None => Json::Null,
        }
    }
}

// ---------------------------------------------------------------------- laws

/// What an object holds under a key is the last value that was written under it;
/// nothing where the key does not occur, and nothing in what is no object.
pub proof fn law_last_value_of_a_key_counts(
    fields: Seq<(Seq<char>, JsonView)>,
    key: Seq<char>,
    i: int,
)
    ensures
        0 <= i < fields.len() && fields[i].0 == key && (forall|j: int|
            i < j < fields.len() ==> (#[trigger] fields[j]).0 != key) ==> get(
            JsonView::Object(fields),
            key,
        ) == Some(fields[i].1),
        (forall|j: int| 0 <= j < fields.len() ==> (#[trigger] fields[j]).0 != key) ==> get(
            JsonView::Object(fields),
            key,
        ) is None,
    decreases fields.len(),
{
    if fields.len() > 0 {
        let rest = fields.drop_last();
        law_last_value_of_a_key_counts(rest, key, i);
        if fields.last().0 != key {
            assert forall|j: int| 0 <= j < rest.len() implies rest[j] == fields[j] by {}
        } else {
            assert(fields[fields.len() - 1].0 == key);
        }
    }
}

/// Only an object holds anything under a key.
pub proof fn law_only_objects_have_fields(v: JsonView, key: Seq<char>)
    ensures
        !(v is Object) ==> get(v, key) is None,
{
}

/// A text is read under a key exactly where a text stands there, a list exactly
/// where a list stands there, and only `true` is true.
pub proof fn law_values_are_read_by_their_kind(
    v: JsonView,
    key: Seq<char>,
    s: Seq<char>,
    items: Seq<JsonView>,
)
    ensures
        get_text(v, key) == Some(s) <==> get(v, key) == Some(JsonView::Text(s)),
        get(v, key) == Some(JsonView::Text(s)) ==> get_text_or_empty(v, key) == s,
        get_text(v, key) is None ==> get_text_or_empty(v, key) == Seq::<char>::empty(),
        get(v, key) == Some(JsonView::Array(items)) ==> get_items(v, key) == items,
        !(get(v, key) matches Some(JsonView::Array(_))) ==> get_items(v, key).len() == 0,
        is_true(v, key) <==> get(v, key) == Some(JsonView::Bool(true)),
{
}

/// A field that is added is found under its key, and the others stay; an item
/// that is added comes last.
pub proof fn law_added_values_are_found(
    o: JsonView,
    key: Seq<char>,
    v: JsonView,
    other: Seq<char>,
    items: Seq<JsonView>,
)
    ensures
        get(no_fields(), key) is None,
        o is Object ==> get(with_field(o, key, v), key) == Some(v),
        o is Object && other != key ==> get(with_field(o, key, v), other) == get(o, other),
        no_items() == JsonView::Array(Seq::empty()),
        with_item(JsonView::Array(items), v) == JsonView::Array(items + seq![v]),
{
    if o is Object {
        let fields = o->Object_0;
        assert(fields.push((key, v)).drop_last() =~= fields);
    }
    assert(items.push(v) =~= items + seq![v]);
}

/// A list of texts has a text for each of them, in their order.
pub proof fn law_text_lists_keep_their_texts(items: Seq<Seq<char>>, i: int)
    requires
        0 <= i < items.len(),
    ensures
        text_array(items) matches JsonView::Array(a) && a.len() == items.len() && a[i]
            == JsonView::Text(items[i]),
        text_or_null(Some(items[i])) == JsonView::Text(items[i]),
        text_or_null(None) == JsonView::Null,
{
}

/// What contracts say of a value is what it holds: the same kind, the same
/// scalar, the same items and the same fields, in order.
pub proof fn law_values_are_read_as_they_are(
    b: bool,
    n: u64,
    s: String,
    items: Vec<Json>,
    fields: Vec<(String, Json)>,
    i: int,
)
    ensures
        Json::Null@ == JsonView::Null,
        Json::Bool(b)@ == JsonView::Bool(b),
        Json::Unsigned(n)@ == JsonView::Unsigned(n),
        Json::Text(s)@ == JsonView::Text(s@),
        Json::Array(items)@ matches JsonView::Array(a) && a.len() == items@.len() && (0 <= i
            < items@.len() ==> a[i] == items@[i]@),
        Json::Object(fields)@ matches JsonView::Object(f) && f.len() == fields@.len() && (0 <= i
            < fields@.len() ==> f[i] == (fields@[i].0@, fields@[i].1@)),
        trees(items@).len() == items@.len(),
        0 <= i < items@.len() ==> trees(items@)[i] == items@[i]@,
{
}

} // verus!
