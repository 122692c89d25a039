use crate::entries::{distinct_keys, lemma_position_is, lookup};
use vstd::prelude::*;
use vstd::string::*;

verus! {

/// The mathematical value of a JSON document: what a [`Json`] stands for.
pub enum JsonModel {
    /// `null`.
    Null,
    /// `true` or `false`.
    Bool(bool),
    /// An integer.
    Int(int),
    /// A number with a fraction or an exponent, as the decimal literal that
    /// denotes it.
    Float(Seq<char>),
    /// A string.
    Str(Seq<char>),
    /// An array: its items in order.
    Array(Seq<JsonModel>),
    /// An object: its entries, each a key and a value, in the order in which
    /// the keys came in.
    Object(Seq<(Seq<char>, JsonModel)>),
}

/// A JSON value. An object keeps its entries in the order in which their
/// keys came in.
#[derive(Debug, PartialEq, Eq)]
pub enum Json {
    /// `null`.
    Null,
    /// `true` or `false`.
    Bool(bool),
    /// An integer.
    Int(i128),
    /// A number with a fraction or an exponent, as the decimal literal that
    /// denotes it: the number is the one nearest to what the literal says.
    Float(String),
    /// A string.
    Str(String),
    /// An array: its items in order.
    Array(Vec<Json>),
    /// An object: its entries, each a key and a value.
    Object(Vec<(String, Json)>),
}

impl View for Json {
    type V = JsonModel;

    open spec fn view(&self) -> JsonModel
        decreases self,
    {
        match self {
            Json::Null => JsonModel::Null,
            Json::Bool(b) => JsonModel::Bool(*b),
            Json::Int(n) => JsonModel::Int(*n as int),
            Json::Float(text) => JsonModel::Float(text@),
            Json::Str(text) => JsonModel::Str(text@),
            Json::Array(items) => JsonModel::Array(
                Seq::new(
                    items@.len(),
                    |i: int|
                        if 0 <= i < items@.len() {
                            items@[i].view()
                        } else {
                            JsonModel::Null
                        },
                ),
            ),
            Json::Object(entries) => JsonModel::Object(
                Seq::new(
                    entries@.len(),
                    |i: int|
                        (
                            entries@[i].0@,
                            if 0 <= i < entries@.len() {
                                entries@[i].1.view()
                            } else {
                                JsonModel::Null
                            },
                        ),
                ),
            ),
        }
    }
}

impl DeepView for Json {
    type V = JsonModel;

    open spec fn deep_view(&self) -> JsonModel {
        self.view()
    }
}

impl JsonModel {
    /// The object with the one entry `key`: `value`.
    pub open spec fn single(key: Seq<char>, value: JsonModel) -> JsonModel {
        JsonModel::Object(seq![(key, value)])
    }

    /// The object with the entry `first_key`: `first`, then `second_key`: `second`.
    pub open spec fn pair(
        first_key: Seq<char>,
        first: JsonModel,
        second_key: Seq<char>,
        second: JsonModel,
    ) -> JsonModel {
        JsonModel::Object(seq![(first_key, first), (second_key, second)])
    }

    /// The text of a string; empty for any other value.
    pub open spec fn text_or_empty(self) -> Seq<char> {
        match self {
            JsonModel::Str(text) => text,
            _ => Seq::empty(),
        }
    }

    /// Whether no object inside this value holds a key twice.
    pub open spec fn well_formed(self) -> bool
        decreases self,
    {
        match self {
            JsonModel::Array(items) => forall|i: int|
                0 <= i < items.len() ==> (#[trigger] items[i]).well_formed(),
            JsonModel::Object(entries) => distinct_keys(entries) && forall|i: int|
                0 <= i < entries.len() ==> (#[trigger] entries[i]).1.well_formed(),
            _ => true,
        }
    }
}

/// The models of `items`, in order.
pub open spec fn models(items: Seq<Json>) -> Seq<JsonModel> {
    Seq::new(items.len(), |i: int| items[i]@)
}

/// The models of `entries`, in order: each key with the model of its value.
pub open spec fn entry_models(entries: Seq<(String, Json)>) -> Seq<(Seq<char>, JsonModel)> {
    Seq::new(entries.len(), |i: int| (entries[i].0@, entries[i].1@))
}

impl Json {
    /// The object with the one entry `key`: `value`.
    pub fn single(key: String, value: Json) -> (object: Json)
        ensures
            object@ == JsonModel::single(key@, value@),
    {
        let mut entries: Vec<(String, Json)> = Vec::new();
        entries.push((key, value));
        proof {
            Json::lemma_object_view(entries);
            assert(entries.deep_view() =~= seq![(key@, value@)]);
        }
        Json::Object(entries)
    }

    /// The object with the entry `first_key`: `first`, then `second_key`: `second`.
    pub fn pair(first_key: String, first: Json, second_key: String, second: Json) -> (object: Json)
        ensures
            object@ == JsonModel::pair(first_key@, first@, second_key@, second@),
    {
        let mut entries: Vec<(String, Json)> = Vec::new();
        entries.push((first_key, first));
        entries.push((second_key, second));
        proof {
            Json::lemma_object_view(entries);
            assert(entries.deep_view() =~= seq![(first_key@, first@), (second_key@, second@)]);
        }
        Json::Object(entries)
    }

    /// The string with the characters of `text`.
    pub fn string(text: &str) -> (value: Json)
        ensures
            value@ == JsonModel::Str(text@),
    {
        Json::Str(String::from_str(text))
    }

    /// The array of `items`.
    pub fn array(items: Vec<Json>) -> (value: Json)
        ensures
            value@ == JsonModel::Array(items.deep_view()),
    {
        proof {
            Json::lemma_array_view(items);
        }
        Json::Array(items)
    }

    /// The text of this value, where it is a string.
    pub fn as_str(&self) -> (text: Option<&str>)
        ensures
            match text {
                Some(text) => self@ == JsonModel::Str(text@),
                None => !(self@ is Str),
            },
    {
        match self {
            Json::Str(text) => Some(text.as_str()),
            _ => None,
        }
    }

    /// The value under `key`, where this value is an object that holds the key.
    pub fn get(&self, key: &str) -> (value: Option<&Json>)
        ensures
            match value {
                Some(value) => self@ is Object && lookup(self@->Object_0, key@) == Some(value@),
                None => !(self@ is Object) || lookup(self@->Object_0, key@) is None,
            },
    {
        match self {
            Json::Object(entries) => {
                let ghost all = entries.deep_view();
                proof {
                    Json::lemma_object_view(*entries);
                }
                let wanted = String::from_str(key);
                let n = entries.len();
                let mut i: usize = 0;
                while i < n && entries[i].0 != wanted
                    invariant
                        i <= n,
                        n == entries@.len(),
                        all == entries.deep_view(),
                        wanted@ == key@,
                        forall|j: int| 0 <= j < i ==> (#[trigger] all[j]).0 != key@,
                    decreases n - i,
                {
                    assert(all[i as int].0 == entries@[i as int].0@);
                    i += 1;
                }
                proof {
                    if i < n {
                        assert(all[i as int] == (entries@[i as int].0@, entries@[i as int].1@));
                    }
                    lemma_position_is(all, key@, i as int);
                }
                if i < n {
                    Some(&entries[i].1)
                } else {
                    None
                }
            },
            _ => None,
        }
    }

    /// The model of an array is the sequence of its items' models.
    pub proof fn lemma_array_view(items: Vec<Json>)
        ensures
            Json::Array(items)@ == JsonModel::Array(items.deep_view()),
    {
        assert(Json::Array(items)@->Array_0 =~= items.deep_view());
    }

    /// The model of an object is the sequence of its entries' models.
    pub proof fn lemma_object_view(entries: Vec<(String, Json)>)
        ensures
            Json::Object(entries)@ == JsonModel::Object(entries.deep_view()),
    {
        let model = Json::Object(entries)@->Object_0;
        assert forall|i: int| 0 <= i < entries@.len() implies model[i]
            == entries.deep_view()[i] by {
            assert(model[i] == (entries@[i].0@, entries@[i].1@));
        }
        assert(model =~= entries.deep_view());
    }
}

impl Clone for Json {
    #[verifier::loop_isolation(false)]
    fn clone(&self) -> (copy: Json)
        ensures
            copy@ == self@,
        decreases self,
    {
        match self {
            Json::Null => Json::Null,
            Json::Bool(b) => Json::Bool(*b),
            Json::Int(n) => Json::Int(*n),
            Json::Float(text) => Json::Float(text.clone()),
            Json::Str(text) => Json::Str(text.clone()),
            Json::Array(items) => {
                let mut copies: Vec<Json> = Vec::new();
                let mut i: usize = 0;
                while i < items.len()
                    invariant
                        i <= items.len(),
                        copies.deep_view() =~= items.deep_view().take(i as int),
                    decreases items.len() - i,
                {
                    copies.push(items[i].clone());
                    i += 1;
                }
                proof {
                    assert(copies.deep_view() =~= items.deep_view());
                    Json::lemma_array_view(copies);
                    Json::lemma_array_view(*items);
                }
                Json::Array(copies)
            },
            Json::Object(entries) => {
                let mut copies: Vec<(String, Json)> = Vec::new();
                let mut i: usize = 0;
                while i < entries.len()
                    invariant
                        i <= entries.len(),
                        copies.deep_view() =~= entries.deep_view().take(i as int),
                    decreases entries.len() - i,
                {
                    copies.push((entries[i].0.clone(), entries[i].1.clone()));
                    i += 1;
                }
                proof {
                    assert(copies.deep_view() =~= entries.deep_view());
                    Json::lemma_object_view(copies);
                    Json::lemma_object_view(*entries);
                }
                Json::Object(copies)
            },
        }
    }
}

} // verus!
