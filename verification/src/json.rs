//! A JSON document as plain data.
//!
//! Numbers are kept as the text of their literal. An object is an ordered list
//! of fields; a key is looked up at its first occurrence.

use crate::text::same_text;
use vstd::prelude::*;

verus! {

/// A JSON value.
#[derive(Debug)]
pub enum Json {
    Null,
    Bool(bool),
    /// A number, as the text of its literal.
    Number(String),
    Text(String),
    Array(Vec<Json>),
    Object(Vec<(String, Json)>),
}

/// The mathematical value of a [`Json`].
pub enum JsonModel {
    Null,
    Bool(bool),
    Number(Seq<char>),
    Text(Seq<char>),
    Array(Seq<JsonModel>),
    Object(Seq<(Seq<char>, JsonModel)>),
}

/// The fields of an object, as a sequence of keys and values.
pub type Fields = Seq<(Seq<char>, JsonModel)>;

/// The values of a list of documents.
pub open spec fn items_model(items: Seq<Json>) -> Seq<JsonModel>
    decreases items, 0nat,
{
    Seq::new(
        items.len(),
        |i: int|
            if 0 <= i < items.len() {
                items[i].view()
            } else {
                JsonModel::Null
            },
    )
}

/// The values of a list of fields.
pub open spec fn fields_model(fields: Seq<(String, Json)>) -> Fields
    decreases fields, 0nat,
{
    Seq::new(
        fields.len(),
        |i: int|
            if 0 <= i < fields.len() {
                (fields[i].0@, fields[i].1.view())
            } else {
                (Seq::empty(), JsonModel::Null)
            },
    )
}

impl View for Json {
    type V = JsonModel;

    open spec fn view(&self) -> JsonModel
        decreases self, 1nat,
    {
        match self {
            Json::Null => JsonModel::Null,
            Json::Bool(b) => JsonModel::Bool(*b),
            Json::Number(n) => JsonModel::Number(n@),
            Json::Text(s) => JsonModel::Text(s@),
            Json::Array(items) => JsonModel::Array(items_model(items@)),
            Json::Object(fields) => JsonModel::Object(fields_model(fields@)),
        }
    }
}

/// Index of the first field named `key`, or the number of fields if there is none.
pub open spec fn position(fields: Fields, key: Seq<char>) -> int
    decreases fields.len(),
{
    if fields.len() == 0 {
        0
    } else if fields[0].0 == key {
        0
    } else {
        1 + position(fields.drop_first(), key)
    }
}

/// The value of the first field named `key`.
pub open spec fn field(fields: Fields, key: Seq<char>) -> Option<JsonModel> {
    let at = position(fields, key);
    if at < fields.len() {
        Some(fields[at].1)
    } else {
        None
    }
}

/// The fields with the first field named `key` set to `value`; a new field
/// at the end if there is none.
pub open spec fn with_field(fields: Fields, key: Seq<char>, value: JsonModel) -> Fields {
    let at = position(fields, key);
    if at < fields.len() {
        fields.update(at, (key, value))
    } else {
        fields.push((key, value))
    }
}

impl JsonModel {
    /// The member `key` of an object; `None` for any other value.
    pub open spec fn get(self, key: Seq<char>) -> Option<JsonModel> {
        match self {
            JsonModel::Object(fields) => field(fields, key),
            _ => None,
        }
    }

    /// The text of a string value.
    pub open spec fn text(self) -> Option<Seq<char>> {
        match self {
            JsonModel::Text(s) => Some(s),
            _ => None,
        }
    }
}

/// `position` names the first index that holds `key`.
pub proof fn lemma_position(fields: Fields, key: Seq<char>, at: int)
    requires
        0 <= at <= fields.len(),
        forall|j: int| 0 <= j < at ==> (#[trigger] fields[j]).0 != key,
        at < fields.len() ==> fields[at].0 == key,
    ensures
        position(fields, key) == at,
    decreases fields.len(),
{
    if fields.len() > 0 && at > 0 {
        let rest = fields.drop_first();
        assert forall|j: int| 0 <= j < at - 1 implies (#[trigger] rest[j]).0 != key by {
            assert(rest[j] == fields[j + 1]);
        }
        lemma_position(rest, key, at - 1);
    }
}

/// What `position` returns: an index in range that holds `key` with no
/// earlier one, or the length when no field is named `key`.
pub proof fn lemma_position_found(fields: Fields, key: Seq<char>)
    ensures
        0 <= position(fields, key) <= fields.len(),
        position(fields, key) < fields.len() ==> fields[position(fields, key)].0 == key,
        forall|j: int| 0 <= j < position(fields, key) ==> (#[trigger] fields[j]).0 != key,
    decreases fields.len(),
{
    if fields.len() > 0 && fields[0].0 != key {
        let rest = fields.drop_first();
        lemma_position_found(rest, key);
        assert forall|j: int| 0 <= j < position(fields, key) implies (#[trigger] fields[j]).0
            != key by {
            if j > 0 {
                assert(rest[j - 1] == fields[j]);
            }
        }
    }
}

/// Index of the first field named `key`, or the number of fields.
pub fn find_field(fields: &Vec<(String, Json)>, key: &str) -> (at: usize)
    ensures
        at == position(fields_model(fields@), key@),
        at <= fields.len(),
{
    let mut i: usize = 0;
    while i < fields.len()
        invariant
            i <= fields.len(),
            forall|j: int| 0 <= j < i ==> (#[trigger] fields_model(fields@)[j]).0 != key@,
        decreases fields.len() - i,
    {
        if same_text(fields[i].0.as_str(), key) {
            proof {
                lemma_position(fields_model(fields@), key@, i as int);
            }
            return i;
        }
        i += 1;
    }
    proof {
        lemma_position(fields_model(fields@), key@, i as int);
    }
    i
}

/// The value of the first field named `key`.
pub fn lookup<'a>(fields: &'a Vec<(String, Json)>, key: &str) -> (r: Option<&'a Json>)
    ensures
        match r {
            Some(v) => field(fields_model(fields@), key@) == Some(v@),
            None => field(fields_model(fields@), key@) is None,
        },
{
    let at = find_field(fields, key);
    if at < fields.len() {
        Some(&fields[at].1)
    } else {
        None
    }
}

/// The first field of a name is found by the keys alone: two lists with the
/// same keys have it at the same index.
pub proof fn lemma_position_by_keys(a: Fields, b: Fields, key: Seq<char>)
    requires
        a.len() == b.len(),
        forall|i: int| 0 <= i < a.len() ==> (#[trigger] a[i]).0 == b[i].0,
    ensures
        position(a, key) == position(b, key),
{
    lemma_position_found(a, key);
    let at = position(a, key);
    assert forall|j: int| 0 <= j < at implies (#[trigger] b[j]).0 != key by {
        assert(a[j].0 != key);
    }
    if at < a.len() {
        assert(a[at].0 == b[at].0);
    }
    lemma_position(b, key, at);
}

impl Json {
    /// The member `key` of an object.
    pub fn get(&self, key: &str) -> (r: Option<&Json>)
        ensures
            match r {
                Some(v) => self@.get(key@) == Some(v@),
                None => self@.get(key@) is None,
            },
    {
        match self {
            Json::Object(fields) => {
                let at = find_field(fields, key);
                if at < fields.len() {
                    Some(&fields[at].1)
                } else {
                    None
                }
            },
            _ => None,
        }
    }

    /// The text of a string value.
    pub fn as_text(&self) -> (r: Option<&str>)
        ensures
            match r {
                Some(s) => self@.text() == Some(s@),
                None => self@.text() is None,
            },
    {
        match self {
            Json::Text(s) => Some(s.as_str()),
            _ => None,
        }
    }

    /// Whether the value is a string.
    pub fn is_text(&self) -> (r: bool)
        ensures
            r == (self@ is Text),
    {
        match self {
            Json::Text(_) => true,
            _ => false,
        }
    }

    /// Whether the value is an object.
    pub fn is_object(&self) -> (r: bool)
        ensures
            r == (self@ is Object),
    {
        match self {
            Json::Object(_) => true,
            _ => false,
        }
    }

    /// A deep copy of the value.
    pub fn duplicate(&self) -> (r: Json)
        ensures
            r@ == self@,
        decreases self,
    {
        match self {
            Json::Null => Json::Null,
            Json::Bool(b) => Json::Bool(*b),
            Json::Number(n) => Json::Number(n.clone()),
            Json::Text(s) => Json::Text(s.clone()),
            Json::Array(items) => {
                let mut out: Vec<Json> = Vec::new();
                let mut i: usize = 0;
                while i < items.len()
                    invariant
                        i <= items.len(),
                        *self == Json::Array(*items),
                        out@.len() == i,
                        forall|k: int| 0 <= k < i ==> (#[trigger] out@[k])@ == items@[k]@,
                    decreases items.len() - i,
                {
                    assert(self->Array_0 == *items);
                    assert(decreases_to!(*items => items[i as int]));
                    out.push(items[i].duplicate());
                    i += 1;
                }
                assert(items_model(out@) =~= items_model(items@));
                Json::Array(out)
            },
            Json::Object(fields) => {
                let mut out: Vec<(String, Json)> = Vec::new();
                let mut i: usize = 0;
                while i < fields.len()
                    invariant
                        i <= fields.len(),
                        *self == Json::Object(*fields),
                        out@.len() == i,
                        forall|k: int|
                            0 <= k < i ==> (#[trigger] out@[k]).0@ == fields@[k].0@ && out@[k].1@
                                == fields@[k].1@,
                    decreases fields.len() - i,
                {
                    assert(self->Object_0 == *fields);
                    assert(decreases_to!(*fields => fields[i as int]));
                    assert(decreases_to!(fields[i as int] => fields[i as int].1));
                    out.push((fields[i].0.clone(), fields[i].1.duplicate()));
                    i += 1;
                }
                assert(fields_model(out@) =~= fields_model(fields@));
                Json::Object(out)
            },
        }
    }

    /// A string value holding `s`.
    pub fn text_of(s: &str) -> (r: Json)
        ensures
            r@ == JsonModel::Text(s@),
    {
        Json::Text(String::from_str(s))
    }
}

} // verus!
