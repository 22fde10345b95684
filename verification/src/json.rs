//! JSON documents: a plain value type, its model, field access, and the two
//! trusted calls that read and write the text form.

use crate::table::{
    lemma_row_at, lemma_row_of, lemma_row_unique, lemma_table_decreases, row_holds, Table,
};
use crate::text::{decimal, Text};
use vstd::prelude::*;

verus! {

broadcast use vstd::string::group_string_axioms;

/// A number as it stands in a document.
#[derive(Debug)]
pub enum JsonNumber {
    /// A non-negative integer.
    Natural(u64),
    /// A negative integer.
    Negative(i64),
    /// Any other number, by its text.
    Other(String),
}

/// A JSON document.
#[derive(Debug)]
pub enum Json {
    Null,
    Bool(bool),
    Number(JsonNumber),
    Text(String),
    List(Vec<Json>),
    Object(Object),
}

/// The fields of a JSON object, by name.
#[derive(Debug)]
pub struct Object {
    fields: Table<String, Json>,
}

/// The model of a number.
pub enum JsonNumberModel {
    Natural(u64),
    Negative(i64),
    Other(Text),
}

/// The model of a document. An object is the map of its fields.
pub enum JsonModel {
    Null,
    Bool(bool),
    Number(JsonNumberModel),
    Text(Text),
    List(Seq<JsonModel>),
    Object(Map<Text, JsonModel>),
}

impl JsonModel {
    /// The field `name` of an object.
    pub open spec fn field(self, name: Text) -> Option<JsonModel> {
        match self {
            JsonModel::Object(m) => if m.contains_key(name) {
                Some(m[name])
            } else {
                None
            },
            _ => None,
        }
    }

    /// The text of a string.
    pub open spec fn text(self) -> Option<Text> {
        match self {
            JsonModel::Text(s) => Some(s),
            _ => None,
        }
    }

    /// The items of a list.
    pub open spec fn list(self) -> Option<Seq<JsonModel>> {
        match self {
            JsonModel::List(s) => Some(s),
            _ => None,
        }
    }

    /// The fields of an object.
    pub open spec fn object(self) -> Option<Map<Text, JsonModel>> {
        match self {
            JsonModel::Object(m) => Some(m),
            _ => None,
        }
    }

    /// The value of a non-negative integer.
    pub open spec fn natural(self) -> Option<u64> {
        match self {
            JsonModel::Number(JsonNumberModel::Natural(n)) => Some(n),
            _ => None,
        }
    }

    /// The field `name`, when it is a string.
    pub open spec fn text_field(self, name: Text) -> Option<Text> {
        match self.field(name) {
            Some(v) => v.text(),
            None => None,
        }
    }

    /// Integers only, and nested at most `depth` levels.
    pub open spec fn plain(self, depth: nat) -> bool
        decreases depth,
    {
        match self {
            JsonModel::Null => true,
            JsonModel::Bool(_) => true,
            JsonModel::Text(_) => true,
            JsonModel::Number(JsonNumberModel::Natural(_)) => true,
            JsonModel::Number(JsonNumberModel::Negative(n)) => n < 0,
            JsonModel::Number(JsonNumberModel::Other(_)) => false,
            JsonModel::List(s) => depth > 0 && forall|i: int|
                #![trigger s[i]]
                0 <= i < s.len() ==> s[i].plain((depth - 1) as nat),
            JsonModel::Object(m) => depth > 0 && forall|k: Text|
                #![trigger m[k]]
                m.contains_key(k) ==> m[k].plain((depth - 1) as nat),
        }
    }
}

/// How deep a document may nest and still be read back.
pub open spec fn max_depth() -> nat {
    127
}

impl JsonNumber {
    /// The number's model.
    pub open spec fn model(self) -> JsonNumberModel {
        match self {
            JsonNumber::Natural(n) => JsonNumberModel::Natural(n),
            JsonNumber::Negative(n) => JsonNumberModel::Negative(n),
            JsonNumber::Other(s) => JsonNumberModel::Other(s@),
        }
    }

    /// A number with the same model.
    pub fn copied(&self) -> (r: JsonNumber)
        ensures
            r.model() == self.model(),
    {
        match self {
            JsonNumber::Natural(n) => JsonNumber::Natural(*n),
            JsonNumber::Negative(n) => JsonNumber::Negative(*n),
            JsonNumber::Other(s) => JsonNumber::Other(s.clone()),
        }
    }
}

/// An object is larger than the values of its fields.
pub proof fn lemma_object_decreases(o: Object, i: int)
    requires
        0 <= i < o.rows().len(),
    ensures
        decreases_to!(o => o.rows()[i].1),
{
    lemma_table_decreases(o.fields, i);
}

/// The models of a list's items.
pub open spec fn models(items: Seq<Json>) -> Seq<JsonModel> {
    Seq::new(items.len(), |i: int| items[i].model())
}

impl Json {
    /// The document's model.
    pub open spec fn model(self) -> JsonModel
        decreases self,
    {
        match self {
            Json::Null => JsonModel::Null,
            Json::Bool(b) => JsonModel::Bool(b),
            Json::Number(n) => JsonModel::Number(n.model()),
            Json::Text(s) => JsonModel::Text(s@),
            Json::List(v) => JsonModel::List(
                Seq::new(
                    v@.len(),
                    |i: int|
                        if 0 <= i < v@.len() {
                            v@[i].model()
                        } else {
                            JsonModel::Null
                        },
                ),
            ),
            Json::Object(o) => JsonModel::Object(o.model()),
        }
    }

    /// A list's model is the list of its items' models.
    pub proof fn lemma_list(items: Vec<Json>)
        ensures
            Json::List(items).model() == JsonModel::List(models(items@)),
    {
        assert(Json::List(items).model()->List_0 =~= models(items@));
    }

    /// The field `name`, if this is an object that has it.
    pub fn get(&self, name: &str) -> (r: Option<&Json>)
        ensures
            r matches Some(j) ==> self.model().field(name@) == Some(j.model()),
            r is None ==> self.model().field(name@) is None,
    {
        match self {
            Json::Object(o) => o.get(name),
            _ => None,
        }
    }

    /// The text, if this is a string.
    pub fn as_str(&self) -> (r: Option<&str>)
        ensures
            r matches Some(s) ==> self.model().text() == Some(s@),
            r is None ==> self.model().text() is None,
    {
        match self {
            Json::Text(s) => Some(s.as_str()),
            _ => None,
        }
    }

    /// The items, if this is a list.
    pub fn as_list(&self) -> (r: Option<&Vec<Json>>)
        ensures
            r matches Some(v) ==> self.model().list() == Some(models(v@)),
            r is None ==> self.model().list() is None,
    {
        match self {
            Json::List(v) => {
                proof {
                    Json::lemma_list(*v);
                }
                Some(v)
            },
            _ => None,
        }
    }

    /// The fields, if this is an object.
    pub fn as_object(&self) -> (r: Option<&Object>)
        ensures
            r matches Some(o) ==> self.model().object() == Some(o.model()),
            r is None ==> self.model().object() is None,
    {
        match self {
            Json::Object(o) => Some(o),
            _ => None,
        }
    }

    /// The value, if this is a non-negative integer.
    pub fn as_u64(&self) -> (r: Option<u64>)
        ensures
            r == self.model().natural(),
    {
        match self {
            Json::Number(JsonNumber::Natural(n)) => Some(*n),
            _ => None,
        }
    }

    /// The field `name`, if it is a string.
    pub fn text_field(&self, name: &str) -> (r: Option<&str>)
        ensures
            r matches Some(s) ==> self.model().text_field(name@) == Some(s@),
            r is None ==> self.model().text_field(name@) is None,
    {
        match self.get(name) {
            Some(v) => v.as_str(),
            None => None,
        }
    }

    /// A document with the same model.
    pub fn copied(&self) -> (r: Json)
        ensures
            r.model() == self.model(),
        decreases self,
    {
        match self {
            Json::Null => Json::Null,
            Json::Bool(b) => Json::Bool(*b),
            Json::Number(n) => Json::Number(n.copied()),
            Json::Text(s) => Json::Text(s.clone()),
            Json::List(v) => {
                let mut out: Vec<Json> = Vec::new();
                let mut i: usize = 0;
                while i < v.len()
                    invariant
                        i <= v@.len(),
                        out@.len() == i,
                        decreases_to!(self => v),
                        forall|j: int| 0 <= j < i ==> (#[trigger] out@[j]).model() == v@[j].model(),
                    decreases v@.len() - i,
                {
                    proof {
                        assert(decreases_to!(v => v@[i as int]));
                    }
                    out.push(v[i].copied());
                    i += 1;
                }
                proof {
                    Json::lemma_list(*v);
                    Json::lemma_list(out);
                    assert(models(out@) =~= models(v@));
                }
                Json::List(out)
            },
            Json::Object(o) => Json::Object(o.copied()),
        }
    }
}

impl Object {
    #[verifier::type_invariant]
    spec fn sorted(&self) -> bool {
        self.fields.wf()
    }

    /// The fields as rows, in name order.
    pub closed spec fn rows(self) -> Seq<(String, Json)> {
        self.fields.rows()
    }

    /// The object's model.
    pub open spec fn model(self) -> Map<Text, JsonModel>
        decreases self,
    {
        Map::new(
            |k: Text| exists|i: int| row_holds(self.rows(), i, k),
            |k: Text|
                {
                    let i = choose|i: int| row_holds(self.rows(), i, k);
                    if 0 <= i < self.rows().len() {
                        proof {
                            lemma_object_decreases(self, i);
                        }
                        self.rows()[i].1.model()
                    } else {
                        JsonModel::Null
                    }
                },
        )
    }

    /// The model follows the table's map.
    proof fn lemma_model(self, k: Text)
        ensures
            self.model().contains_key(k) <==> self.fields.map().contains_key(k),
            self.model().contains_key(k) ==> self.model()[k] == self.fields.map()[k].model(),
    {
    }

    /// A field that the model holds stands in some row.
    pub proof fn lemma_row_for(self, k: Text) -> (i: int)
        requires
            self.model().contains_key(k),
        ensures
            0 <= i < self.rows().len(),
            self.rows()[i].0@ == k,
    {
        choose|i: int| row_holds(self.rows(), i, k)
    }

    /// The model holds the name of every row.
    pub proof fn lemma_name_held(self, i: int)
        requires
            0 <= i < self.rows().len(),
        ensures
            self.model().contains_key(self.rows()[i].0@),
    {
        assert(row_holds(self.rows(), i, self.rows()[i].0@));
    }

    /// An object without fields.
    pub fn new() -> (r: Object)
        ensures
            r.model() == Map::<Text, JsonModel>::empty(),
    {
        let r = Object { fields: Table::new() };
        assert(r.model() =~= Map::<Text, JsonModel>::empty()) by {
            assert forall|k: Text| !r.model().contains_key(k) by {
                r.lemma_model(k);
            }
        }
        r
    }

    /// The field `name`.
    pub fn get(&self, name: &str) -> (r: Option<&Json>)
        ensures
            r matches Some(j) ==> self.model().contains_key(name@) && self.model()[name@]
                == j.model(),
            r is None ==> !self.model().contains_key(name@),
    {
        proof {
            use_type_invariant(self);
            self.lemma_model(name@);
        }
        self.fields.get(&name.to_owned())
    }

    /// Whether there is a field `name`.
    pub fn contains(&self, name: &str) -> (r: bool)
        ensures
            r == self.model().contains_key(name@),
    {
        self.get(name).is_some()
    }

    /// Sets the field `name`.
    pub fn insert(&mut self, name: &str, value: Json)
        ensures
            final(self).model() == old(self).model().insert(name@, value.model()),
    {
        proof {
            use_type_invariant(&*self);
        }
        let ghost before = *self;
        let mut fields: Table<String, Json> = Table::new();
        std::mem::swap(&mut fields, &mut self.fields);
        fields.insert(name.to_owned(), value);
        self.fields = fields;
        proof {
            assert forall|k: Text|
                #![trigger self.model().contains_key(k)]
                self.model().contains_key(k) == before.model().insert(
                    name@,
                    value.model(),
                ).contains_key(k) && (self.model().contains_key(k) ==> self.model()[k]
                    == before.model().insert(name@, value.model())[k]) by {
                self.lemma_model(k);
                before.lemma_model(k);
            }
            assert(self.model() =~= before.model().insert(name@, value.model()));
        }
    }

    /// Drops the field `name`.
    pub fn remove(&mut self, name: &str)
        ensures
            final(self).model() == old(self).model().remove(name@),
    {
        proof {
            use_type_invariant(&*self);
        }
        let ghost before = *self;
        let mut fields: Table<String, Json> = Table::new();
        std::mem::swap(&mut fields, &mut self.fields);
        let _ = fields.remove(&name.to_owned());
        self.fields = fields;
        proof {
            assert forall|k: Text|
                #![trigger self.model().contains_key(k)]
                self.model().contains_key(k) == before.model().remove(name@).contains_key(k) && (
                self.model().contains_key(k) ==> self.model()[k] == before.model().remove(
                    name@,
                )[k]) by {
                self.lemma_model(k);
                before.lemma_model(k);
            }
            assert(self.model() =~= before.model().remove(name@));
        }
    }

    /// Number of fields.
    pub fn len(&self) -> (r: usize)
        ensures
            r == self.rows().len(),
    {
        self.fields.len()
    }

    /// Whether there are no fields.
    pub fn is_empty(&self) -> (r: bool)
        ensures
            r == (self.model() =~= Map::<Text, JsonModel>::empty()),
    {
        proof {
            if self.rows().len() > 0 {
                assert(row_holds(self.rows(), 0, self.rows()[0].0@));
                assert(self.model().contains_key(self.rows()[0].0@));
            } else {
                assert(self.model() =~= Map::<Text, JsonModel>::empty());
            }
        }
        self.fields.len() == 0
    }

    /// The name of field number `i`.
    pub fn name_at(&self, i: usize) -> (r: &String)
        requires
            i < self.rows().len(),
        ensures
            *r == self.rows()[i as int].0,
            self.model().contains_key(r@),
            self.model()[r@] == self.rows()[i as int].1.model(),
            forall|j: int|
                #![trigger self.rows()[j]]
                0 <= j < self.rows().len() && j != i ==> self.rows()[j].0@ != r@,
    {
        proof {
            use_type_invariant(self);
            lemma_row_at(self.rows(), i as int);
            self.lemma_model(self.rows()[i as int].0@);
            assert forall|j: int|
                #![trigger self.rows()[j]]
                0 <= j < self.rows().len() && j != i implies self.rows()[j].0@
                != self.rows()[i as int].0@ by {
                if self.rows()[j].0@ == self.rows()[i as int].0@ {
                    lemma_row_unique(self.rows(), j, i as int);
                }
            }
        }
        self.fields.key_at(i)
    }

    /// The value of field number `i`.
    pub fn value_at(&self, i: usize) -> (r: &Json)
        requires
            i < self.rows().len(),
        ensures
            *r == self.rows()[i as int].1,
    {
        self.fields.value_at(i)
    }

    /// An object with the same model.
    pub fn copied(&self) -> (r: Object)
        ensures
            r.model() == self.model(),
        decreases self,
    {
        proof {
            use_type_invariant(self);
        }
        let mut fields: Table<String, Json> = Table::new();
        let mut i: usize = 0;
        while i < self.fields.len()
            invariant
                self.fields.wf(),
                fields.wf(),
                i <= self.fields.rows().len(),
                fields.rows().len() == i,
                forall|j: int|
                    #![trigger fields.rows()[j]]
                    0 <= j < i ==> fields.rows()[j].0@ == self.rows()[j].0@
                        && fields.rows()[j].1.model() == self.rows()[j].1.model(),
            decreases self.fields.rows().len() - i,
        {
            proof {
                lemma_object_decreases(*self, i as int);
            }
            let value = self.fields.value_at(i).copied();
            fields.push(self.fields.key_at(i).clone(), value);
            i += 1;
        }
        let r = Object { fields };
        proof {
            assert forall|k: Text|
                #![trigger r.model().contains_key(k)]
                r.model().contains_key(k) == self.model().contains_key(k) && (
                r.model().contains_key(k) ==> r.model()[k] == self.model()[k]) by {
                r.lemma_model(k);
                self.lemma_model(k);
                if r.fields.map().contains_key(k) {
                    let j = lemma_row_of(r.fields.rows(), k);
                    lemma_row_at(self.fields.rows(), j);
                }
                if self.fields.map().contains_key(k) {
                    let j = lemma_row_of(self.fields.rows(), k);
                    assert(fields.rows()[j].0@ == k);
                    lemma_row_at(r.fields.rows(), j);
                }
            }
            assert(r.model() =~= self.model());
        }
        r
    }
}

/// `serde_json::Value`, carried opaquely between the two conversions below.
#[verifier::external_type_specification]
#[verifier::external_body]
pub struct ExOutsideValue(serde_json::Value);

/// `serde_json::Number`, carried opaquely between the two conversions below.
#[verifier::external_type_specification]
#[verifier::external_body]
pub struct ExOutsideNumber(serde_json::Number);

/// What `serde_json::from_slice` reads from `bytes`: a document, or nothing
/// where they are not one JSON text.
pub uninterp spec fn parsed(bytes: Seq<u8>) -> Option<JsonModel>;

/// What the error of `serde_json::from_slice` says of bytes that are not one JSON
/// text.
pub uninterp spec fn parse_error(bytes: Seq<u8>) -> Seq<char>;

/// What the error of `serde_json::from_slice`, asked for an object, says of bytes
/// that are not one.
pub uninterp spec fn object_error(bytes: Seq<u8>) -> Seq<char>;

/// The compact text that `serde_json::to_vec` writes for a document.
pub uninterp spec fn encoded(v: JsonModel) -> Seq<u8>;

/// Converts a number variant by variant (`serde_json::Number::as_u64`,
/// `as_i64`, and its text for everything else). Nothing is claimed of it on its
/// own: `parse` states what comes out.
#[verifier::external_body]
fn number_in(n: serde_json::Number) -> JsonNumber {
    match (n.as_u64(), n.as_i64()) {
        (Some(u), _) => JsonNumber::Natural(u),
        (None, Some(i)) => JsonNumber::Negative(i),
        (None, None) => JsonNumber::Other(n.to_string()),
    }
}

/// Converts a `serde_json::Value` variant by variant. Nothing is claimed of it
/// on its own: `parse` states what comes out.
#[verifier::external_body]
fn value_in(v: serde_json::Value) -> Json {
    match v {
        serde_json::Value::Null => Json::Null,
        serde_json::Value::Bool(b) => Json::Bool(b),
        serde_json::Value::Number(n) => Json::Number(number_in(n)),
        serde_json::Value::String(s) => Json::Text(s),
        serde_json::Value::Array(a) => Json::List(a.into_iter().map(value_in).collect()),
        serde_json::Value::Object(m) => {
            let mut o = Object::new();
            m.into_iter().for_each(|(k, v)| o.insert(&k, value_in(v)));
            Json::Object(o)
        },
    }
}

/// Converts a document to a `serde_json::Value` variant by variant. Nothing is
/// claimed of it on its own: `to_bytes` states what is written.
#[verifier::external_body]
fn value_out(j: &Json) -> serde_json::Value {
    match j {
        Json::Null => serde_json::Value::Null,
        Json::Bool(b) => serde_json::Value::Bool(*b),
        Json::Number(JsonNumber::Natural(n)) => serde_json::Value::from(*n),
        Json::Number(JsonNumber::Negative(n)) => serde_json::Value::from(*n),
        Json::Number(JsonNumber::Other(s)) => serde_json::from_str(s).unwrap_or_default(),
        Json::Text(s) => serde_json::Value::String(s.clone()),
        Json::List(v) => serde_json::Value::Array(v.iter().map(value_out).collect()),
        Json::Object(o) => (0..o.len()).map(|i| (o.name_at(i).clone(), value_out(o.value_at(i)))).collect(),
    }
}

/// The text of a generation marker: a kind and a number.
pub open spec fn marker_text(n: u64) -> Text {
    "{\"op\":\"gen\",\"gen\":"@ + decimal(n as nat) + "}"@
}

/// The document that a generation marker spells.
pub open spec fn marker_model(n: u64) -> JsonModel {
    JsonModel::Object(
        Map::empty().insert("op"@, JsonModel::Text("gen"@)).insert(
            "gen"@,
            JsonModel::Number(JsonNumberModel::Natural(n)),
        ),
    )
}

/// The bytes of a generation marker are read as one.
pub open spec fn reads_marker(r: Option<Json>, bytes: Seq<u8>) -> bool {
    forall|n: u64|
        bytes == #[trigger] vstd::utf8::encode_utf8(marker_text(n)) ==> (r matches Some(j)
            && j.model() == marker_model(n))
}

/// `serde_json::from_slice`. Claimed: the outcome depends on the bytes alone;
/// its value is named [`parsed`]. An object of a kind and a decimal number,
/// spelled out without spaces, is read as such. Which other bytes are a JSON
/// text, and which document they spell, is not stated here.
#[verifier::external_body]
fn parse_call(bytes: &[u8]) -> (r: Option<Json>)
    ensures
        r matches Some(j) ==> parsed(bytes@) == Some(j.model()),
        r is None ==> parsed(bytes@) is None,
        reads_marker(r, bytes@),
{
    serde_json::from_slice(bytes).ok().map(value_in)
}

/// The error of `serde_json::from_slice`, as text. Claimed: there is one where the
/// bytes are not read as a document, and its text depends on the bytes alone; it is
/// named [`parse_error`].
#[verifier::external_body]
pub(crate) fn parse_failure(bytes: &[u8]) -> (r: Option<String>)
    ensures
        r is Some <==> parsed(bytes@) is None,
        r matches Some(t) ==> t@ == parse_error(bytes@),
{
    serde_json::from_slice::<serde_json::Value>(bytes).err().map(|e| e.to_string())
}

/// The error of `serde_json::from_slice` into a `serde_json::Map`, as text.
/// Claimed: there is one where the bytes are not read as an object, and its text
/// depends on the bytes alone; it is named [`object_error`].
#[verifier::external_body]
pub(crate) fn object_failure(bytes: &[u8]) -> (r: Option<String>)
    ensures
        r is None <==> parsed(bytes@) matches Some(JsonModel::Object(_)),
        r matches Some(t) ==> t@ == object_error(bytes@),
{
    serde_json::from_slice::<serde_json::Map<String, serde_json::Value>>(bytes)
        .err()
        .map(|e| e.to_string())
}

/// `serde_json::to_vec`. Claimed: the bytes depend on the document alone, and
/// reading them back with `serde_json::from_slice` gives the same document where
/// all its numbers are integers and it nests no deeper than the reader's limit.
#[verifier::external_body]
fn encode_call(j: &Json) -> (r: Vec<u8>)
    ensures
        r@ == encoded(j.model()),
        j.model().plain(max_depth()) ==> parsed(r@) == Some(j.model()),
{
    serde_json::to_vec(&value_out(j)).expect("a value tree has text keys only")
}

/// Reads one JSON text.
pub fn parse(bytes: &[u8]) -> (r: Option<Json>)
    ensures
        r matches Some(j) ==> parsed(bytes@) == Some(j.model()),
        r is None ==> parsed(bytes@) is None,
        reads_marker(r, bytes@),
{
    parse_call(bytes)
}

/// Writes a document's compact text.
pub fn to_bytes(j: &Json) -> (r: Vec<u8>)
    ensures
        r@ == encoded(j.model()),
        j.model().plain(max_depth()) ==> parsed(r@) == Some(j.model()),
{
    encode_call(j)
}

} // verus!
