//! Parsed manifest documents, held as plain values.
//!
//! A `package.json` is read as JSON and a `pyproject.toml` as TOML. The reading itself is the work
//! of `serde_json` and `toml`; what this crate decides is read off the values those parsers return,
//! so the values are held here in a shape the rules can be stated over. Object and table entries
//! keep the order the parser's map yields them in, and every value keeps the text the parser prints
//! it as, because a declaration that is not a string is quoted by that text.
use vstd::prelude::*;
use crate::text::str_eq;

verus! {

/// A JSON value.
#[derive(Debug, PartialEq, Eq)]
pub struct Json {
    /// What kind of value it is, and what it holds.
    pub shape: JsonShape,
    /// The value as `serde_json` prints it, compactly.
    pub text: String,
}

/// The kinds of JSON value.
#[derive(Debug, PartialEq, Eq)]
pub enum JsonShape {
    /// `null`.
    Null,
    /// `true` or `false`.
    Bool(bool),
    /// A number; its digits are in the value's text.
    Number,
    /// A string.
    Text(String),
    /// An array.
    Array(Vec<Json>),
    /// An object, entry by entry.
    Object(Vec<(String, Json)>),
}

/// A TOML value.
#[derive(Debug, PartialEq, Eq)]
pub struct Toml {
    /// What kind of value it is, and what it holds.
    pub shape: TomlShape,
    /// The value as `toml` prints it.
    pub text: String,
}

/// The kinds of TOML value the contract rules tell apart.
#[derive(Debug, PartialEq, Eq)]
pub enum TomlShape {
    /// A string.
    Text(String),
    /// An array.
    Array(Vec<Toml>),
    /// A table, entry by entry.
    Table(Vec<(String, Toml)>),
    /// An integer, a float, a boolean or a date-time; their content is in the value's text.
    Scalar,
}

/// The position of the first entry with this key, as a map lookup finds it.
pub open spec fn key_index<T>(entries: Seq<(String, T)>, key: Seq<char>) -> Option<int>
    decreases entries.len(),
{
    if entries.len() == 0 {
        None
    } else if entries[0].0@ == key {
        Some(0)
    } else {
        match key_index(entries.drop_first(), key) {
            Some(i) => Some(i + 1),
            None => None,
        }
    }
}

/// The value stored under `key`, if any.
pub open spec fn member<T>(entries: Seq<(String, T)>, key: Seq<char>) -> Option<T> {
    match key_index(entries, key) {
        Some(i) => Some(entries[i].1),
        None => None,
    }
}

/// Whether some entry has this key.
pub open spec fn has_key<T>(entries: Seq<(String, T)>, key: Seq<char>) -> bool {
    key_index(entries, key) is Some
}

proof fn lemma_key_index_bounds<T>(entries: Seq<(String, T)>, key: Seq<char>)
    ensures
        match key_index(entries, key) {
            Some(i) => 0 <= i < entries.len() && entries[i].0@ == key,
            None => forall|j: int| 0 <= j < entries.len() ==> entries[j].0@ != key,
        },
    decreases entries.len(),
{
    if entries.len() > 0 {
        lemma_key_index_bounds(entries.drop_first(), key);
        if entries[0].0@ != key {
            assert forall|j: int| 1 <= j < entries.len() implies entries[j] == entries.drop_first()[j - 1] by {}
        }
    }
}

proof fn lemma_key_index_skip<T>(entries: Seq<(String, T)>, key: Seq<char>, i: int)
    requires
        0 <= i < entries.len(),
        entries[i].0@ != key,
    ensures
        key_index(entries.skip(i), key) == match key_index(entries.skip(i + 1), key) {
            Some(k) => Some(k + 1),
            None => None::<int>,
        },
{
    assert(entries.skip(i).drop_first() =~= entries.skip(i + 1));
}

/// Where the first entry with this key sits.
pub fn find_key<T>(entries: &Vec<(String, T)>, key: &str) -> (at: Option<usize>)
    ensures
        match at {
            Some(i) => key_index(entries@, key@) == Some(i as int) && i < entries.len(),
            None => key_index(entries@, key@) is None,
        },
{
    let mut i: usize = 0;
    assert(entries@.skip(0) =~= entries@);
    while i < entries.len()
        invariant
            i <= entries.len(),
            key_index(entries@, key@) == match key_index(entries@.skip(i as int), key@) {
                Some(k) => Some(k + i),
                None => None::<int>,
            },
        decreases entries.len() - i,
    {
        if str_eq(entries[i].0.as_str(), key) {
            assert(entries@.skip(i as int)[0] == entries@[i as int]);
            return Some(i);
        }
        proof {
            lemma_key_index_skip(entries@, key@, i as int);
        }
        i = i + 1;
    }
    None
}

/// The value stored under `key` in an object's entries.
pub fn member_of<'a, T>(entries: &'a Vec<(String, T)>, key: &str) -> (found: Option<&'a T>)
    ensures
        match found {
            Some(v) => member(entries@, key@) == Some(*v),
            None => member(entries@, key@) is None,
        },
{
    match find_key(entries, key) {
        Some(i) => Some(&entries[i].1),
        None => None,
    }
}

impl Json {
    /// The member `key` of this value when it is an object, as `Value::get` answers.
    pub open spec fn field(self, key: Seq<char>) -> Option<Json> {
        match self.shape {
            JsonShape::Object(entries) => member(entries@, key),
            _ => None,
        }
    }

    /// The string this value holds, when it is one.
    pub open spec fn string_of(self) -> Option<Seq<char>> {
        match self.shape {
            JsonShape::Text(s) => Some(s@),
            _ => None,
        }
    }

    /// The member `key` of this value when it is an object.
    pub fn get(&self, key: &str) -> (found: Option<&Json>)
        ensures
            match found {
                Some(v) => self.field(key@) == Some(*v),
                None => self.field(key@) is None,
            },
    {
        match &self.shape {
            JsonShape::Object(entries) => member_of(entries, key),
            _ => None,
        }
    }

    /// The string this value holds, when it is one.
    pub fn as_str(&self) -> (s: Option<&str>)
        ensures
            match s {
                Some(t) => self.string_of() == Some(t@),
                None => self.string_of() is None,
            },
    {
        match &self.shape {
            JsonShape::Text(s) => Some(s.as_str()),
            _ => None,
        }
    }
}

impl Toml {
    /// The entry `key` of this value when it is a table, as `Value::get` answers.
    pub open spec fn field(self, key: Seq<char>) -> Option<Toml> {
        match self.shape {
            TomlShape::Table(entries) => member(entries@, key),
            _ => None,
        }
    }

    /// The string this value holds, when it is one.
    pub open spec fn string_of(self) -> Option<Seq<char>> {
        match self.shape {
            TomlShape::Text(s) => Some(s@),
            _ => None,
        }
    }

    /// The entry `key` of this value when it is a table.
    pub fn get(&self, key: &str) -> (found: Option<&Toml>)
        ensures
            match found {
                Some(v) => self.field(key@) == Some(*v),
                None => self.field(key@) is None,
            },
    {
        match &self.shape {
            TomlShape::Table(entries) => member_of(entries, key),
            _ => None,
        }
    }

    /// The string this value holds, when it is one.
    pub fn as_str(&self) -> (s: Option<&str>)
        ensures
            match s {
                Some(t) => self.string_of() == Some(t@),
                None => self.string_of() is None,
            },
    {
        match &self.shape {
            TomlShape::Text(s) => Some(s.as_str()),
            _ => None,
        }
    }
}

/// A JSON value as `serde_json` holds it; opaque here, and only ever converted.
#[verifier::external_type_specification]
#[verifier::external_body]
pub struct ExJsonValue(serde_json::Value);

/// A TOML value as `toml` holds it; opaque here, and only ever converted.
#[verifier::external_type_specification]
#[verifier::external_body]
pub struct ExTomlValue(toml::Value);

/// The JSON value `serde_json` reads from a text, or `None` where it refuses the text.
pub uninterp spec fn json_parse(text: Seq<char>) -> Option<Json>;

/// The TOML document `toml` reads from a text, as a table value, or `None` where it refuses
/// the text.
pub uninterp spec fn toml_parse(text: Seq<char>) -> Option<Toml>;

/// A `serde_json::Value` as a [`Json`], variant by variant. Trusted: nothing is stated of it
/// but through [`parse_json`].
#[verifier::external_body]
fn json_model(value: &serde_json::Value) -> Json {
    let shape = match value {
        serde_json::Value::Null => JsonShape::Null,
        serde_json::Value::Bool(b) => JsonShape::Bool(*b),
        serde_json::Value::Number(_) => JsonShape::Number,
        serde_json::Value::String(s) => JsonShape::Text(s.clone()),
        serde_json::Value::Array(items) => JsonShape::Array(items.iter().map(json_model).collect()),
        serde_json::Value::Object(map) => JsonShape::Object(map.iter().map(|(k, v)| (k.clone(), json_model(v))).collect()),
    };
    Json { shape, text: value.to_string() }
}

/// A `toml::Value` as a [`Toml`], variant by variant; integers, floats, booleans and date-times
/// all become a scalar, one arm for the four. Trusted: nothing is stated of it but through [`parse_toml`].
#[verifier::external_body]
fn toml_model(value: &toml::Value) -> Toml {
    let shape = match value {
        toml::Value::String(s) => TomlShape::Text(s.clone()),
        toml::Value::Array(items) => TomlShape::Array(items.iter().map(toml_model).collect()),
        toml::Value::Table(table) => TomlShape::Table(table.iter().map(|(k, v)| (k.clone(), toml_model(v))).collect()),
        toml::Value::Integer(_) | toml::Value::Float(_) | toml::Value::Boolean(_) | toml::Value::Datetime(_) => TomlShape::Scalar,
    };
    Toml { shape, text: value.to_string() }
}

/// `serde_json::from_str` into a `serde_json::Value`. Trusted: the result is the value the
/// parser reads from the text, or `None` where it returns an error; which texts it accepts and
/// what it reads from them is `serde_json`'s own grammar, named [`json_parse`] here and not
/// written out.
#[verifier::external_body]
pub(crate) fn parse_json(text: &str) -> (parsed: Option<Json>)
    ensures
        parsed == json_parse(text@),
{
    match serde_json::from_str::<serde_json::Value>(text) {
        Ok(value) => Some(json_model(&value)),
        Err(_) => None,
    }
}

/// `toml::from_str` into a `toml::Table`, held as a table value. Trusted: the result is the
/// document the parser reads from the text, or `None` where it returns an error; the TOML
/// grammar is `toml`'s own, named [`toml_parse`] here and not written out.
#[verifier::external_body]
pub(crate) fn parse_toml(text: &str) -> (parsed: Option<Toml>)
    ensures
        parsed == toml_parse(text@),
{
    match toml::from_str::<toml::Table>(text) {
        Ok(table) => Some(toml_model(&toml::Value::Table(table))),
        Err(_) => None,
    }
}

} // verus!
