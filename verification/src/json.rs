//! JSON documents, as far as the worker reads them.

use vstd::prelude::*;

use crate::text::opt_text;

verus! {

/// What a JSON document says; of a number, the integer that serde_json reads as an `i64`, if any.
pub enum JsonView {
    Null,
    Bool(bool),
    Number(Option<i64>),
    Text(Seq<char>),
    Array(Seq<JsonView>),
    Object(Seq<(Seq<char>, JsonView)>),
}

/// A JSON document; of a number, the integer that serde_json reads as an `i64`, if any.
pub enum Json {
    Null,
    Bool(bool),
    Number(Option<i64>),
    Text(String),
    Array(Vec<Json>),
    Object(Vec<(String, Json)>),
}

impl Json {
    /// What the document says.
    pub open spec fn model(self) -> JsonView
        decreases self,
    {
        match self {
            Json::Null => JsonView::Null,
            Json::Bool(b) => JsonView::Bool(b),
            Json::Number(n) => JsonView::Number(n),
            Json::Text(s) => JsonView::Text(s@),
            Json::Array(items) => JsonView::Array(
                Seq::new(
                    items@.len(),
                    |i: int|
                        if 0 <= i < items@.len() {
                            items@[i].model()
                        } else {
                            JsonView::Null
                        },
                ),
            ),
            Json::Object(fields) => JsonView::Object(
                Seq::new(
                    fields@.len(),
                    |i: int|
                        if 0 <= i < fields@.len() {
                            (fields@[i].0@, fields@[i].1.model())
                        } else {
                            (Seq::empty(), JsonView::Null)
                        },
                ),
            ),
        }
    }
}

impl View for Json {
    type V = JsonView;

    open spec fn view(&self) -> JsonView {
        self.model()
    }
}

/// `serde_json::Value`, a JSON document as serde_json holds it.
#[verifier::external_type_specification]
#[verifier::external_body]
pub struct ExValue(serde_json::Value);

/// `serde_json::Error`, the reason why a text could not be read.
#[verifier::external_type_specification]
#[verifier::external_body]
pub struct ExError(serde_json::Error);

/// What a `serde_json::Value` holds: a number as the integer that `as_i64` makes of it, the entries
/// of an object in the order in which its map gives them out.
pub uninterp spec fn value_contents(value: serde_json::Value) -> JsonView;

/// What `serde_json::from_slice` reads in a text; nothing where the text is not one JSON document
/// and no more.
pub uninterp spec fn parsed_json(text: Seq<u8>) -> Option<JsonView>;

/// Calls `serde_json::from_slice`: it reads the text as one document, or fails, and which of the
/// two, and which document, is settled by the bytes of the text alone.
#[verifier::external_body]
fn parse_value(text: &[u8]) -> (r: Result<serde_json::Value, serde_json::Error>)
    ensures
        r is Ok <==> parsed_json(text@) is Some,
        r is Ok ==> value_contents(r->Ok_0) == parsed_json(text@)->Some_0,
{
    serde_json::from_slice(text)
}

/// The outermost layer of a `serde_json::Value`.
enum Node {
    Null,
    Bool(bool),
    Number(Option<i64>),
    Text(String),
    Array(Vec<serde_json::Value>),
    Object(Vec<(String, serde_json::Value)>),
}

/// What a value holds that has this outermost layer.
spec fn node_contents(node: Node) -> JsonView {
    match node {
        Node::Null => JsonView::Null,
        Node::Bool(b) => JsonView::Bool(b),
        Node::Number(n) => JsonView::Number(n),
        Node::Text(s) => JsonView::Text(s@),
        Node::Array(items) => JsonView::Array(
            Seq::new(items@.len(), |i: int| value_contents(items@[i])),
        ),
        Node::Object(fields) => JsonView::Object(
            Seq::new(fields@.len(), |i: int| (fields@[i].0@, value_contents(fields@[i].1))),
        ),
    }
}

/// Takes the outermost layer off a `serde_json::Value`: one variant for each of its own, with the
/// number turned into an integer by `Number::as_i64` and the entries of the object taken from its
/// `Map` by `into_iter`. What the layer holds, with what the inner values hold, is what the value
/// held.
#[verifier::external_body]
fn open_value(value: serde_json::Value) -> (r: Node)
    ensures
        node_contents(r) == value_contents(value),
{
    match value {
        serde_json::Value::Null => Node::Null,
        serde_json::Value::Bool(b) => Node::Bool(b),
        serde_json::Value::Number(n) => Node::Number(n.as_i64()),
        serde_json::Value::String(s) => Node::Text(s),
        serde_json::Value::Array(items) => Node::Array(items),
        serde_json::Value::Object(fields) => Node::Object(fields.into_iter().collect()),
    }
}

/// Turns a `serde_json::Value` into a document, layer by layer.
fn convert(value: serde_json::Value) -> (r: Json)
    ensures
        r@ == value_contents(value),
    decreases value_contents(value),
{
    match open_value(value) {
        Node::Null => Json::Null,
        Node::Bool(b) => Json::Bool(b),
        Node::Number(n) => Json::Number(n),
        Node::Text(s) => Json::Text(s),
        Node::Array(items) => {
            let ghost said = value_contents(value)->Array_0;
            let mut done: Vec<Json> = Vec::new();
            for item in it: items
                invariant
                    value_contents(value) == JsonView::Array(said),
                    it.seq().len() == said.len(),
                    forall|i: int|
                        0 <= i < said.len() ==> said[i] == value_contents(#[trigger] it.seq()[i]),
                    done@.len() == it.index(),
                    forall|i: int| 0 <= i < done@.len() ==> (#[trigger] done@[i])@ == said[i],
            {
                assert(value_contents(value)->Array_0[it.index() as int] == value_contents(item));
                done.push(convert(item));
            }
            let r = Json::Array(done);
            assert(r@->Array_0 =~= said);
            r
        },
        Node::Object(fields) => {
            let ghost said = value_contents(value)->Object_0;
            let mut done: Vec<(String, Json)> = Vec::new();
            for field in it: fields
                invariant
                    value_contents(value) == JsonView::Object(said),
                    it.seq().len() == said.len(),
                    forall|i: int|
                        0 <= i < said.len() ==> said[i] == (
                            (#[trigger] it.seq()[i]).0@,
                            value_contents(it.seq()[i].1),
                        ),
                    done@.len() == it.index(),
                    forall|i: int|
                        0 <= i < done@.len() ==> ((#[trigger] done@[i]).0@, done@[i].1@) == said[i],
            {
                let (name, inner) = field;
                assert(value_contents(value)->Object_0[it.index() as int].1 == value_contents(inner));
                done.push((name, convert(inner)));
            }
            let r = Json::Object(done);
            assert(r@->Object_0 =~= said);
            r
        },
    }
}

/// Reads a JSON text; `None` where it is not one.
pub fn parse_json(text: &[u8]) -> (r: Option<Json>)
    ensures
        r is Some <==> parsed_json(text@) is Some,
        r is Some ==> r->Some_0@ == parsed_json(text@)->Some_0,
{
    match parse_value(text) {
        Ok(value) => Some(convert(value)),
        Err(_) => None,
    }
}

/// What stands under `key`, in the first entry of that name.
pub open spec fn entry(
    fields: Seq<(Seq<char>, JsonView)>,
    key: Seq<char>,
) -> Option<JsonView>
    decreases fields.len(),
{
    if fields.len() == 0 {
        None
    } else if fields[0].0 == key {
        Some(fields[0].1)
    } else {
        entry(fields.drop_first(), key)
    }
}

impl JsonView {
    /// What an object holds under `key`; nothing where it is no object.
    pub open spec fn field(self, key: Seq<char>) -> Option<JsonView> {
        match self {
            JsonView::Object(fields) => entry(fields, key),
            _ => None,
        }
    }

    /// The integer, where the document is a number that reads as one.
    pub open spec fn as_i64(self) -> Option<i64> {
        match self {
            JsonView::Number(n) => n,
            _ => None,
        }
    }

    /// The text, where the document is a string.
    pub open spec fn as_str(self) -> Option<Seq<char>> {
        match self {
            JsonView::Text(s) => Some(s),
            _ => None,
        }
    }

    /// The items, where the document is an array.
    pub open spec fn as_array(self) -> Option<Seq<JsonView>> {
        match self {
            JsonView::Array(items) => Some(items),
            _ => None,
        }
    }
}

/// The views of a list of documents.
pub open spec fn documents(list: Seq<Json>) -> Seq<JsonView> {
    Seq::new(list.len(), |i: int| list[i]@)
}

impl Json {
    /// What an object holds under `key`; nothing where it is no object.
    pub fn field(&self, key: &str) -> (r: Option<&Json>)
        ensures
            r is Some <==> self@.field(key@) is Some,
            r is Some ==> r->Some_0@ == self@.field(key@)->Some_0,
    {
        match self {
            Json::Object(fields) => {
                let wanted = key.to_owned();
                let ghost said = self@->Object_0;
                let mut i: usize = 0;
                assert(said.skip(0) =~= said);
                while i < fields.len()
                    invariant
                        *self == Json::Object(*fields),
                        said == self@->Object_0,
                        wanted@ == key@,
                        i <= fields@.len(),
                        self@.field(key@) == entry(said.skip(i as int), key@),
                    decreases fields@.len() - i,
                {
                    assert(said.skip(i as int)[0] == (fields@[i as int].0@, fields@[i as int].1@));
                    if fields[i].0 == wanted {
                        return Some(&fields[i].1);
                    }
                    assert(said.skip(i as int).drop_first() =~= said.skip(i + 1));
                    i = i + 1;
                }
                None
            },
            _ => None,
        }
    }

    /// The integer, where the document is a number that reads as one.
    pub fn as_i64(&self) -> (r: Option<i64>)
        ensures
            r == self@.as_i64(),
    {
        match self {
            Json::Number(n) => *n,
            _ => None,
        }
    }

    /// The text, where the document is a string.
    pub fn as_str(&self) -> (r: Option<&str>)
        ensures
            r is Some <==> self@.as_str() is Some,
            r is Some ==> r->Some_0@ == self@.as_str()->Some_0,
    {
        match self {
            Json::Text(s) => Some(s.as_str()),
            _ => None,
        }
    }

    /// The items, where the document is an array.
    pub fn as_array(&self) -> (r: Option<&Vec<Json>>)
        ensures
            r is Some <==> self@.as_array() is Some,
            r is Some ==> documents(r->Some_0@) == self@.as_array()->Some_0,
    {
        match self {
            Json::Array(items) => {
                assert(documents(items@) =~= self@->Array_0);
                Some(items)
            },
            _ => None,
        }
    }
}

/// The integer under `key`, or zero.
pub open spec fn ival_of(d: JsonView, key: Seq<char>) -> i64 {
    match d.field(key) {
        Some(v) => match v.as_i64() {
            Some(n) => n,
            None => 0,
        },
        None => 0,
    }
}

/// The text under `key`.
pub open spec fn sval_of(d: JsonView, key: Seq<char>) -> Option<Seq<char>> {
    match d.field(key) {
        Some(v) => v.as_str(),
        None => None,
    }
}

/// The integer under `key`, or zero.
pub fn ival(d: &Json, key: &str) -> (r: i64)
    ensures
        r == ival_of(d@, key@),
{
    match d.field(key) {
        Some(v) => match v.as_i64() {
            Some(n) => n,
            None => 0,
        },
        None => 0,
    }
}

/// The text under `key`.
pub fn sval(d: &Json, key: &str) -> (r: Option<String>)
    ensures
        opt_text(r) == sval_of(d@, key@),
{
    match d.field(key) {
        Some(v) => match v.as_str() {
            Some(s) => Some(s.to_owned()),
            None => None,
        },
        None => None,
    }
}

/// `value` stands in `d` under `key`: `d` is an object with such an entry, and no entry before it has
/// that name.
pub open spec fn holds(d: JsonView, key: Seq<char>, value: JsonView) -> bool {
    match d {
        JsonView::Object(fields) => exists|i: int|
            {
                &&& 0 <= i < fields.len()
                &&& #[trigger] fields[i] == (key, value)
                &&& forall|j: int| 0 <= j < i ==> (#[trigger] fields[j]).0 != key
            },
        _ => false,
    }
}

/// Nothing stands in `d` under `key`: it is no object, or one without an entry of that name.
pub open spec fn lacks(d: JsonView, key: Seq<char>) -> bool {
    match d {
        JsonView::Object(fields) => forall|i: int|
            0 <= i < fields.len() ==> (#[trigger] fields[i]).0 != key,
        _ => true,
    }
}

/// The first entry of a name is found, wherever it stands.
proof fn lemma_entry(fields: Seq<(Seq<char>, JsonView)>, key: Seq<char>) -> (at: int)
    ensures
        match entry(fields, key) {
            Some(v) => {
                &&& 0 <= at < fields.len()
                &&& fields[at] == (key, v)
                &&& forall|j: int| 0 <= j < at ==> (#[trigger] fields[j]).0 != key
            },
            None => forall|j: int| 0 <= j < fields.len() ==> (#[trigger] fields[j]).0 != key,
        },
    decreases fields.len(),
{
    if fields.len() == 0 || fields[0].0 == key {
        0
    } else {
        let rest = fields.drop_first();
        let at = lemma_entry(rest, key);
        assert forall|j: int|
            0 <= j < (if entry(rest, key) is Some {
                at + 1
            } else {
                fields.len() as int
            }) implies (#[trigger] fields[j]).0 != key by {
            if j > 0 {
                assert(rest[j - 1].0 != key);
            }
        }
        at + 1
    }
}

/// What stands under a name is found, and nothing else is: a name that no entry has gives nothing.
pub proof fn law_fields_are_found_by_name(d: JsonView, key: Seq<char>)
    ensures
        forall|v: JsonView| d.field(key) == Some(v) <==> #[trigger] holds(d, key, v),
        d.field(key) is None <==> lacks(d, key),
{
    match d {
        JsonView::Object(fields) => {
            let at = lemma_entry(fields, key);
            if entry(fields, key) is Some {
                assert(holds(d, key, fields[at].1));
            }
        },
        _ => {},
    }
}

/// An integer under a name is read as it stands there; anything else is read as zero.
pub proof fn law_integers_are_read(d: JsonView, key: Seq<char>)
    ensures
        forall|n: i64| #[trigger]
            holds(d, key, JsonView::Number(Some(n))) ==> ival_of(d, key) == n,
        ival_of(d, key) != 0 ==> holds(d, key, JsonView::Number(Some(ival_of(d, key)))),
{
    law_fields_are_found_by_name(d, key);
}

/// A text under a name is read as it stands there; anything else is not read.
pub proof fn law_texts_are_read(d: JsonView, key: Seq<char>)
    ensures
        forall|t: Seq<char>|
            sval_of(d, key) == Some(t) <==> #[trigger] holds(d, key, JsonView::Text(t)),
{
    law_fields_are_found_by_name(d, key);
}

/// A document is seen whole: all its items in their order, and all its entries with their names.
pub proof fn law_documents_are_seen_whole(d: Json)
    ensures
        match d {
            Json::Null => d@ is Null,
            Json::Bool(b) => d@ == JsonView::Bool(b),
            Json::Number(n) => d@ == JsonView::Number(n),
            Json::Text(s) => d@ == JsonView::Text(s@),
            Json::Array(items) => d@ matches JsonView::Array(seen) && seen.len() == items@.len()
                && forall|i: int| 0 <= i < items@.len() ==> #[trigger] seen[i] == items@[i]@,
            Json::Object(fields) => d@ matches JsonView::Object(seen) && seen.len()
                == fields@.len() && forall|i: int|
                0 <= i < fields@.len() ==> #[trigger] seen[i] == (
                    fields@[i].0@,
                    fields@[i].1@,
                ),
        },
{
}

/// The items of a list are seen one by one.
pub proof fn law_lists_are_seen_whole(list: Seq<Json>)
    ensures
        documents(list).len() == list.len(),
        forall|i: int| 0 <= i < list.len() ==> #[trigger] documents(list)[i] == list[i]@,
{
}

} // verus!
