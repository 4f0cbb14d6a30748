//! JSON documents as plain values, with their mathematical model.

use vstd::prelude::*;

use crate::text::str_eq;

verus! {

/// `serde_json::Number`: a JSON number. Nothing is assumed of what it holds.
#[verifier::external_type_specification]
#[verifier::external_body]
pub struct ExNumber(serde_json::Number);

/// `serde_json::Value`: a JSON document as the crate keeps it. Nothing is assumed of what
/// it holds.
#[verifier::external_type_specification]
#[verifier::external_body]
pub struct ExSerdeValue(serde_json::Value);

/// The mathematical model of a JSON document: a tree whose objects are maps.
pub enum Json {
    Null,
    Bool(bool),
    Number(serde_json::Number),
    Str(Seq<char>),
    Arr(Seq<Json>),
    Obj(Map<Seq<char>, Json>),
}

/// A JSON document.
#[derive(Debug, PartialEq)]
pub enum JsonValue {
    Null,
    Bool(bool),
    Number(serde_json::Number),
    String(String),
    Array(Vec<JsonValue>),
    Object(Object),
}

/// A JSON object: its members, the last one of a name being the one that counts.
#[derive(Debug, PartialEq)]
pub struct Object {
    pub entries: Vec<(String, JsonValue)>,
}

impl View for JsonValue {
    type V = Json;

    open spec fn view(&self) -> Json
        decreases self,
    {
        match *self {
            JsonValue::Null => Json::Null,
            JsonValue::Bool(b) => Json::Bool(b),
            JsonValue::Number(n) => Json::Number(n),
            JsonValue::String(s) => Json::Str(s@),
            JsonValue::Array(a) => Json::Arr(values_view(a@)),
            JsonValue::Object(o) => Json::Obj(entries_view(o.entries@)),
        }
    }
}

impl View for Object {
    type V = Map<Seq<char>, Json>;

    open spec fn view(&self) -> Map<Seq<char>, Json> {
        entries_view(self.entries@)
    }
}

/// The models of a sequence of values.
pub open spec fn values_view(s: Seq<JsonValue>) -> Seq<Json>
    decreases s,
{
    Seq::new(
        s.len(),
        |i: int|
            if 0 <= i < s.len() {
                s[i].view()
            } else {
                arbitrary()
            },
    )
}

/// The map that a sequence of members stands for.
pub open spec fn entries_view(s: Seq<(String, JsonValue)>) -> Map<Seq<char>, Json>
    decreases s,
{
    if s.len() == 0 {
        Map::empty()
    } else {
        entries_view(s.drop_last()).insert(s.last().0@, s.last().1@)
    }
}

pub broadcast proof fn lemma_values_view_push(s: Seq<JsonValue>, v: JsonValue)
    ensures
        #[trigger] values_view(s.push(v)) == values_view(s).push(v@),
{
    assert(values_view(s.push(v)) =~= values_view(s).push(v@));
}

pub broadcast proof fn lemma_values_view_add(s: Seq<JsonValue>, t: Seq<JsonValue>)
    ensures
        #[trigger] values_view(s + t) == values_view(s) + values_view(t),
{
    assert(values_view(s + t) =~= values_view(s) + values_view(t));
}

pub broadcast proof fn lemma_values_view_empty()
    ensures
        #[trigger] values_view(Seq::<JsonValue>::empty()) == Seq::<Json>::empty(),
{
    assert(values_view(Seq::<JsonValue>::empty()) =~= Seq::<Json>::empty());
}

pub broadcast group group_values {
    lemma_values_view_push,
    lemma_values_view_add,
    lemma_values_view_empty,
}

pub proof fn lemma_entries_push(s: Seq<(String, JsonValue)>, e: (String, JsonValue))
    ensures
        entries_view(s.push(e)) == entries_view(s).insert(e.0@, e.1@),
{
    assert(s.push(e).drop_last() =~= s);
}

/// The number read as an unsigned integer.
pub uninterp spec fn number_as_u64(n: serde_json::Number) -> Option<u64>;

/// The number that stands for an unsigned integer.
pub uninterp spec fn u64_number(n: u64) -> serde_json::Number;

/// The number that stands for a signed integer.
pub uninterp spec fn i64_number(n: i64) -> serde_json::Number;

/// `serde_json::Number::as_u64`: the number as an unsigned integer, if it is one.
/// What comes back is a function of the number alone.
pub assume_specification[ serde_json::Number::as_u64 ](n: &serde_json::Number) -> (r: Option<u64>)
    ensures
        r == number_as_u64(*n),
;

/// `<serde_json::Number as Clone>::clone`: the same number.
pub assume_specification[ <serde_json::Number as Clone>::clone ](n: &serde_json::Number) -> (r:
    serde_json::Number)
    ensures
        r == *n,
;

/// `<serde_json::Number as From<u64>>::from`: the number of an unsigned integer,
/// from which `as_u64` reads that integer again.
#[verifier::external_body]
fn number_from_u64(n: u64) -> (r: serde_json::Number)
    ensures
        r == u64_number(n),
        number_as_u64(r) == Some(n),
{
    serde_json::Number::from(n)
}

/// `<serde_json::Number as From<i64>>::from`: the number of a signed integer; one that is
/// not negative is the number of the unsigned integer, and a negative one is no unsigned
/// integer.
#[verifier::external_body]
fn number_from_i64(n: i64) -> (r: serde_json::Number)
    ensures
        r == i64_number(n),
        n >= 0 ==> r == u64_number(n as u64),
        n < 0 ==> number_as_u64(r) is None,
{
    serde_json::Number::from(n)
}

/// The document that a `serde_json::Value` holds.
pub uninterp spec fn serde_content(v: serde_json::Value) -> Json;

/// The document that a text denotes, or what is wrong with the text.
pub uninterp spec fn json_read(text: Seq<char>) -> Result<Json, Seq<char>>;

/// The document that a text denotes, if it denotes one.
pub open spec fn json_parse(text: Seq<char>) -> Option<Json> {
    match json_read(text) {
        Ok(j) => Some(j),
        Err(_) => None,
    }
}

/// The compact text of a document.
pub uninterp spec fn json_text(j: Json) -> Seq<char>;

/// The content of a `serde_json::Value`, variant by variant.
#[verifier::external_body]
fn from_serde(v: serde_json::Value) -> (r: JsonValue)
    ensures
        r@ == serde_content(v),
{
    match v {
        serde_json::Value::Null => JsonValue::Null,
        serde_json::Value::Bool(b) => JsonValue::Bool(b),
        serde_json::Value::Number(n) => JsonValue::Number(n),
        serde_json::Value::String(s) => JsonValue::String(s),
        serde_json::Value::Array(a) => JsonValue::Array(a.into_iter().map(from_serde).collect()),
        serde_json::Value::Object(m) => JsonValue::Object(
            Object { entries: m.into_iter().map(|(k, v)| (k, from_serde(v))).collect() },
        ),
    }
}

/// A `serde_json::Value` of the given content; in an object, `serde_json::Map::insert`
/// lets a later member replace an earlier one of the same name.
#[verifier::external_body]
fn to_serde(v: &JsonValue) -> (r: serde_json::Value)
    ensures
        serde_content(r) == v@,
{
    match v {
        JsonValue::Null => serde_json::Value::Null,
        JsonValue::Bool(b) => serde_json::Value::Bool(*b),
        JsonValue::Number(n) => serde_json::Value::Number(n.clone()),
        JsonValue::String(s) => serde_json::Value::String(s.clone()),
        JsonValue::Array(a) => serde_json::Value::Array(a.iter().map(to_serde).collect()),
        JsonValue::Object(o) => {
            let mut m = serde_json::Map::new();
            o.entries.iter().for_each(|(k, v)| { m.insert(k.clone(), to_serde(v)); });
            serde_json::Value::Object(m)
        },
    }
}

/// `serde_json::from_str`: the document that the text denotes, or its error in words.
/// Which texts denote a document, and how an error is worded, is left to the crate.
#[verifier::external_body]
fn serde_from_str(text: &str) -> (r: Result<serde_json::Value, String>)
    ensures
        match r {
            Ok(v) => json_read(text@) == Ok::<Json, Seq<char>>(serde_content(v)),
            Err(m) => json_read(text@) == Err::<Json, Seq<char>>(m@),
        },
{
    serde_json::from_str(text).map_err(|e: serde_json::Error| e.to_string())
}

/// The name of a member by which `serde_json` tells a raw document from an object.
pub open spec fn reserved_name() -> Seq<char> {
    "$serde_json::private::RawValue"@
}

/// The map of strings that a text denotes, if it denotes one.
pub uninterp spec fn strings_read(text: Seq<char>) -> Option<Map<Seq<char>, Seq<char>>>;

/// `serde_json::from_str` for a map of strings: the members, each name once. Where none of
/// them has the reserved name, the text read as a document says the same. Which texts denote
/// such a map is left to the crate.
#[verifier::external_body]
pub(crate) fn serde_strings(text: &str) -> (r: Option<Vec<(String, String)>>)
    ensures
        match r {
            Some(v) => strings_read(text@) == Some(crate::columns::pairs_view(v@)),
            None => strings_read(text@) is None,
        },
        r matches Some(v) && !crate::columns::pairs_view(v@).dom().contains(reserved_name())
            ==> crate::columns::strings_in(json_parse(text@)) == strings_read(text@),
{
    let read: Result<std::collections::HashMap<String, String>, serde_json::Error> =
        serde_json::from_str(text);
    read.ok().map(|m| m.into_iter().collect())
}

/// The list of strings that a text denotes, if it denotes one.
pub uninterp spec fn names_read(text: Seq<char>) -> Option<Seq<Seq<char>>>;

/// `serde_json::from_str` for a list of strings; the text read as a document says the same.
/// Which texts denote such a list is left to the crate.
#[verifier::external_body]
pub(crate) fn serde_names(text: &str) -> (r: Option<Vec<String>>)
    ensures
        crate::columns::opt_seq_view(r) == names_read(text@),
        r is Some ==> crate::columns::names_in(json_parse(text@)) == names_read(text@),
{
    serde_json::from_str(text).ok()
}

/// `serde_json::Value`'s `to_string`: the compact text of the content. Reading it again
/// gives the content back where that nests no deeper than the reader follows, its numbers
/// are unsigned integers, and no member has the reserved name, which is read as a raw
/// document. An object of strings and an array of strings are read back as a map and a list
/// of strings, whatever the names and the strings are.
#[verifier::external_body]
fn serde_to_string(v: &serde_json::Value) -> (r: String)
    ensures
        r@ == json_text(serde_content(*v)),
        serde_content(*v).plain(64) ==> json_parse(r@) == Some(serde_content(*v)),
        crate::columns::strings_in(Some(serde_content(*v))) is Some ==> strings_read(r@)
            == crate::columns::strings_in(Some(serde_content(*v))),
        crate::columns::names_in(Some(serde_content(*v))) is Some ==> names_read(r@)
            == crate::columns::names_in(Some(serde_content(*v))),
{
    v.to_string()
}

/// Whether the text of a document is read as that document.
pub open spec fn reads_back(j: Json) -> bool {
    json_parse(json_text(j)) == Some(j)
}

impl Json {
    /// A document nested at most `depth` levels deep, whose numbers are all unsigned
    /// integers, and in which no member has the name that `serde_json` keeps for itself.
    pub open spec fn plain(self, depth: nat) -> bool
        decreases depth,
    {
        match self {
            Json::Number(n) => number_as_u64(n) is Some,
            Json::Arr(a) => depth > 0 && forall|i: int|
                0 <= i < a.len() ==> (#[trigger] a[i]).plain((depth - 1) as nat),
            Json::Obj(m) => depth > 0 && !m.dom().contains(reserved_name()) && forall|
                k: Seq<char>,
            |
                m.dom().contains(k) ==> (#[trigger] m[k]).plain((depth - 1) as nat),
            _ => true,
        }
    }

    /// The member `key` of an object; nothing for any other document.
    pub open spec fn get(self, key: Seq<char>) -> Option<Json> {
        match self {
            Json::Obj(m) => if m.dom().contains(key) {
                Some(m[key])
            } else {
                None
            },
            _ => None,
        }
    }

    pub open spec fn as_str(self) -> Option<Seq<char>> {
        match self {
            Json::Str(s) => Some(s),
            _ => None,
        }
    }

    pub open spec fn as_array(self) -> Option<Seq<Json>> {
        match self {
            Json::Arr(a) => Some(a),
            _ => None,
        }
    }

    pub open spec fn as_bool(self) -> Option<bool> {
        match self {
            Json::Bool(b) => Some(b),
            _ => None,
        }
    }

    pub open spec fn as_u64(self) -> Option<u64> {
        match self {
            Json::Number(n) => number_as_u64(n),
            _ => None,
        }
    }

    /// The member `key`, when it is a string.
    pub open spec fn get_str(self, key: Seq<char>) -> Option<Seq<char>> {
        match self.get(key) {
            Some(v) => v.as_str(),
            None => None,
        }
    }

    /// The member `key`, when it is an array.
    pub open spec fn get_array(self, key: Seq<char>) -> Option<Seq<Json>> {
        match self.get(key) {
            Some(v) => v.as_array(),
            None => None,
        }
    }

    /// The member `key`, when it is a boolean.
    pub open spec fn get_bool(self, key: Seq<char>) -> Option<bool> {
        match self.get(key) {
            Some(v) => v.as_bool(),
            None => None,
        }
    }

    /// The member `key`, when it is an unsigned integer.
    pub open spec fn get_u64(self, key: Seq<char>) -> Option<u64> {
        match self.get(key) {
            Some(v) => v.as_u64(),
            None => None,
        }
    }

    /// The string member `key`, or the empty string.
    pub open spec fn str_or_empty(self, key: Seq<char>) -> Seq<char> {
        match self.get_str(key) {
            Some(s) => s,
            None => Seq::empty(),
        }
    }

    /// The member `key` of the member `outer`.
    pub open spec fn get2(self, outer: Seq<char>, key: Seq<char>) -> Option<Json> {
        match self.get(outer) {
            Some(v) => v.get(key),
            None => None,
        }
    }

    /// The document of an unsigned integer.
    pub open spec fn num(n: u64) -> Json {
        Json::Number(u64_number(n))
    }

    /// The document of a signed integer.
    pub open spec fn signed(n: i64) -> Json {
        Json::Number(i64_number(n))
    }

    /// An empty object.
    pub open spec fn obj() -> Json {
        Json::Obj(Map::empty())
    }

    /// The object with `key` set to `value`.
    pub open spec fn with(self, key: Seq<char>, value: Json) -> Json {
        match self {
            Json::Obj(m) => Json::Obj(m.insert(key, value)),
            _ => Json::Obj(Map::empty().insert(key, value)),
        }
    }

    /// The object with `key` set to `value`, where there is a value.
    pub open spec fn with_opt(self, key: Seq<char>, value: Option<Json>) -> Json {
        match value {
            Some(v) => self.with(key, v),
            None => self,
        }
    }

    /// The document of an optional string: `null` when there is none.
    pub open spec fn opt_str(s: Option<Seq<char>>) -> Json {
        match s {
            Some(s) => Json::Str(s),
            None => Json::Null,
        }
    }
}

impl Object {
    pub fn new() -> (r: Object)
        ensures
            r@ == Map::<Seq<char>, Json>::empty(),
    {
        Object { entries: Vec::new() }
    }

    /// The value of `key`.
    pub fn get(&self, key: &str) -> (r: Option<&JsonValue>)
        ensures
            crate::text::opt_view(r) == Json::Obj(self@).get(key@),
    {
        let n: usize = self.entries.len();
        let mut i: usize = n;
        assert(self.entries@.take(n as int) =~= self.entries@);
        while i > 0
            invariant
                i <= n,
                n == self.entries@.len(),
                Json::Obj(self@).get(key@) == Json::Obj(entries_view(self.entries@.take(i as int))).get(key@),
            decreases i,
        {
            assert(self.entries@.take(i as int).drop_last() =~= self.entries@.take(i - 1));
            assert(self.entries@.take(i as int).last() == self.entries@[i - 1]);
            if str_eq(self.entries[i - 1].0.as_str(), key) {
                return Some(&self.entries[i - 1].1);
            }
            proof {
                let last = self.entries@[i - 1];
                let rest = entries_view(self.entries@.take(i - 1));
                assert(entries_view(self.entries@.take(i as int)) == rest.insert(last.0@, last.1@));
            }
            i = i - 1;
        }
        None
    }

    pub fn contains_key(&self, key: &str) -> (r: bool)
        ensures
            r == self@.dom().contains(key@),
    {
        self.get(key).is_some()
    }

    /// Sets `key` to `value`.
    pub fn insert(&mut self, key: &str, value: JsonValue)
        ensures
            final(self)@ == old(self)@.insert(key@, value@),
    {
        let ghost before = self.entries@;
        let name = key.to_owned();
        proof {
            lemma_entries_push(before, (name, value));
        }
        self.entries.push((name, value));
    }

    /// Takes `key` out.
    pub fn remove(&mut self, key: &str)
        ensures
            final(self)@ == old(self)@.remove(key@),
    {
        let mut i: usize = 0;
        let ghost done: Seq<(String, JsonValue)> = Seq::empty();
        let ghost before = self.entries@;
        let ghost mut read: int = 0;
        assert(before.take(0) =~= Seq::empty());
        assert(self.entries@.take(0) =~= Seq::empty());
        assert(Map::<Seq<char>, Json>::empty().remove(key@) =~= Map::<Seq<char>, Json>::empty());
        assert(before.skip(0) =~= before);
        assert(self.entries@.skip(0) =~= before);
        while i < self.entries.len()
            invariant
                i <= self.entries@.len(),
                0 <= read <= before.len(),
                self.entries@.len() - i == before.len() - read,
                self.entries@.skip(i as int) == before.skip(read),
                entries_view(self.entries@.take(i as int)) == entries_view(before.take(read)).remove(key@),
            decreases self.entries@.len() - i,
        {
            let ghost cur = self.entries@;
            assert(cur[i as int] == cur.skip(i as int)[0]);
            assert(before[read] == before.skip(read)[0]);
            assert(before.take(read + 1).drop_last() =~= before.take(read));
            assert(before.skip(read + 1) =~= before.skip(read).skip(1));
            let ghost seen = entries_view(before.take(read));
            if str_eq(self.entries[i].0.as_str(), key) {
                self.entries.remove(i);
                assert(self.entries@.take(i as int) =~= cur.take(i as int));
                assert(self.entries@.skip(i as int) =~= cur.skip(i as int).skip(1));
                assert(seen.insert(key@, before[read].1@).remove(key@) =~= seen.remove(key@));
            } else {
                assert(cur.take(i as int + 1).drop_last() =~= cur.take(i as int));
                assert(cur.skip(i as int + 1) =~= cur.skip(i as int).skip(1));
                assert(seen.insert(before[read].0@, before[read].1@).remove(key@) =~= seen.remove(
                    key@,
                ).insert(before[read].0@, before[read].1@));
                i = i + 1;
            }
            proof {
                read = read + 1;
            }
        }
        assert(before.take(read) =~= before);
        assert(self.entries@.take(i as int) =~= self.entries@);
    }
}

impl JsonValue {
    /// The document that `text` denotes, or what is wrong with the text.
    pub fn read(text: &str) -> (r: Result<JsonValue, String>)
        ensures
            crate::text::res_view(r) == json_read(text@),
    {
        match serde_from_str(text) {
            Ok(v) => Ok(from_serde(v)),
            Err(m) => Err(m),
        }
    }

    /// The document that `text` denotes.
    pub fn parse(text: &str) -> (r: Option<JsonValue>)
        ensures
            crate::text::opt_view(r) == json_parse(text@),
    {
        match JsonValue::read(text) {
            Ok(v) => Some(v),
            Err(_) => None,
        }
    }

    /// The compact text of the document.
    pub fn to_text(&self) -> (r: String)
        ensures
            r@ == json_text(self@),
            self@.plain(64) ==> json_parse(r@) == Some(self@),
            crate::columns::strings_in(Some(self@)) is Some ==> strings_read(r@)
                == crate::columns::strings_in(Some(self@)),
            crate::columns::names_in(Some(self@)) is Some ==> names_read(r@)
                == crate::columns::names_in(Some(self@)),
    {
        let v = to_serde(self);
        serde_to_string(&v)
    }

    /// The member `key` of an object; `None` for any other value.
    pub fn get(&self, key: &str) -> (r: Option<&JsonValue>)
        ensures
            crate::text::opt_view(r) == self@.get(key@),
    {
        match self {
            JsonValue::Object(o) => o.get(key),
            _ => None,
        }
    }

    pub fn is_null(&self) -> (r: bool)
        ensures
            r == (self@ is Null),
    {
        match self {
            JsonValue::Null => true,
            _ => false,
        }
    }

    pub fn as_str(&self) -> (r: Option<&str>)
        ensures
            crate::text::opt_view(r) == self@.as_str(),
    {
        match self {
            JsonValue::String(s) => Some(s.as_str()),
            _ => None,
        }
    }

    pub fn as_bool(&self) -> (r: Option<bool>)
        ensures
            r == self@.as_bool(),
    {
        match self {
            JsonValue::Bool(b) => Some(*b),
            _ => None,
        }
    }

    pub fn as_u64(&self) -> (r: Option<u64>)
        ensures
            r == self@.as_u64(),
    {
        match self {
            JsonValue::Number(n) => n.as_u64(),
            _ => None,
        }
    }

    pub fn as_array(&self) -> (r: Option<&Vec<JsonValue>>)
        ensures
            match r {
                Some(a) => self@.as_array() == Some(values_view(a@)),
                None => self@.as_array() is None,
            },
    {
        match self {
            JsonValue::Array(a) => Some(a),
            _ => None,
        }
    }

    pub fn as_object(&self) -> (r: Option<&Object>)
        ensures
            match r {
                Some(o) => self@ == Json::Obj(o@),
                None => !(self@ is Obj),
            },
    {
        match self {
            JsonValue::Object(o) => Some(o),
            _ => None,
        }
    }

    pub fn get_str(&self, key: &str) -> (r: Option<&str>)
        ensures
            crate::text::opt_view(r) == self@.get_str(key@),
    {
        match self.get(key) {
            Some(v) => v.as_str(),
            None => None,
        }
    }

    pub fn get_bool(&self, key: &str) -> (r: Option<bool>)
        ensures
            r == self@.get_bool(key@),
    {
        match self.get(key) {
            Some(v) => v.as_bool(),
            None => None,
        }
    }

    pub fn get_u64(&self, key: &str) -> (r: Option<u64>)
        ensures
            r == self@.get_u64(key@),
    {
        match self.get(key) {
            Some(v) => v.as_u64(),
            None => None,
        }
    }

    pub fn get_array(&self, key: &str) -> (r: Option<&Vec<JsonValue>>)
        ensures
            match r {
                Some(a) => self@.get_array(key@) == Some(values_view(a@)),
                None => self@.get_array(key@) is None,
            },
    {
        match self.get(key) {
            Some(v) => v.as_array(),
            None => None,
        }
    }

    /// The string member `key`, or the empty string.
    pub fn str_or_empty(&self, key: &str) -> (r: String)
        ensures
            r@ == self@.str_or_empty(key@),
    {
        match self.get_str(key) {
            Some(s) => s.to_owned(),
            None => String::new(),
        }
    }

    /// The member `key` of the member `outer`.
    pub fn get2(&self, outer: &str, key: &str) -> (r: Option<&JsonValue>)
        ensures
            crate::text::opt_view(r) == self@.get2(outer@, key@),
    {
        match self.get(outer) {
            Some(v) => v.get(key),
            None => None,
        }
    }

    /// A string document.
    pub fn str(s: &str) -> (r: JsonValue)
        ensures
            r@ == Json::Str(s@),
    {
        JsonValue::String(s.to_owned())
    }

    /// The document of an unsigned integer.
    pub fn num(n: u64) -> (r: JsonValue)
        ensures
            r@ == Json::num(n),
            r@.as_u64() == Some(n),
    {
        JsonValue::Number(number_from_u64(n))
    }

    /// The document of a signed integer.
    pub fn signed(n: i64) -> (r: JsonValue)
        ensures
            r@ == Json::signed(n),
    {
        JsonValue::Number(number_from_i64(n))
    }

    /// The document of an optional string.
    pub fn opt_str(s: Option<&str>) -> (r: JsonValue)
        ensures
            r@ == Json::opt_str(crate::text::opt_view(s)),
    {
        match s {
            Some(s) => JsonValue::str(s),
            None => JsonValue::Null,
        }
    }

    /// An empty object.
    pub fn obj() -> (r: JsonValue)
        ensures
            r@ == Json::obj(),
    {
        JsonValue::Object(Object::new())
    }

    /// The object with `key` set to `value`.
    pub fn with(self, key: &str, value: JsonValue) -> (r: JsonValue)
        ensures
            r@ == self@.with(key@, value@),
    {
        match self {
            JsonValue::Object(o) => {
                let mut o = o;
                o.insert(key, value);
                JsonValue::Object(o)
            },
            _ => {
                let mut o = Object::new();
                o.insert(key, value);
                JsonValue::Object(o)
            },
        }
    }

    /// The object with `key` set to `value`, where there is a value.
    pub fn with_opt(self, key: &str, value: Option<JsonValue>) -> (r: JsonValue)
        ensures
            r@ == self@.with_opt(key@, crate::text::opt_view(value)),
    {
        match value {
            Some(v) => self.with(key, v),
            None => self,
        }
    }

    /// An empty array.
    pub fn array0() -> (r: JsonValue)
        ensures
            r@ == Json::Arr(Seq::empty()),
    {
        broadcast use group_values;

        JsonValue::Array(Vec::new())
    }

    /// An array of one document.
    pub fn array1(v: JsonValue) -> (r: JsonValue)
        ensures
            r@ == Json::Arr(seq![v@]),
    {
        let mut a: Vec<JsonValue> = Vec::new();
        a.push(v);
        assert(values_view(a@) =~= seq![v@]);
        JsonValue::Array(a)
    }

    /// Copies of the documents.
    pub fn copy_all(a: &Vec<JsonValue>) -> (r: Vec<JsonValue>)
        ensures
            values_view(r@) == values_view(a@),
    {
        let mut out: Vec<JsonValue> = Vec::new();
        let mut i: usize = 0;
        while i < a.len()
            invariant
                i <= a@.len(),
                out@.len() == i,
                forall|j: int| 0 <= j < i ==> (#[trigger] out@[j])@ == a@[j]@,
            decreases a@.len() - i,
        {
            let v = a[i].copy();
            out.push(v);
            i = i + 1;
        }
        assert(values_view(out@) =~= values_view(a@));
        out
    }

    /// A copy of the document.
    pub fn copy(&self) -> (r: JsonValue)
        ensures
            r@ == self@,
        decreases self,
    {
        match self {
            JsonValue::Null => JsonValue::Null,
            JsonValue::Bool(b) => JsonValue::Bool(*b),
            JsonValue::Number(n) => JsonValue::Number(n.clone()),
            JsonValue::String(s) => JsonValue::String(s.clone()),
            JsonValue::Array(a) => {
                let mut out: Vec<JsonValue> = Vec::new();
                let mut i: usize = 0;
                while i < a.len()
                    invariant
                        i <= a@.len(),
                        out@.len() == i,
                        forall|j: int| 0 <= j < i ==> out@[j]@ == a@[j]@,
                        *self == JsonValue::Array(*a),
                    decreases a@.len() - i,
                {
                    assert(decreases_to!(*self => self->Array_0));
                    assert(decreases_to!(*a => a@[i as int]));
                    let v = a[i].copy();
                    out.push(v);
                    i = i + 1;
                }
                assert(values_view(out@) =~= values_view(a@));
                JsonValue::Array(out)
            },
            JsonValue::Object(o) => {
                let mut out: Vec<(String, JsonValue)> = Vec::new();
                let mut i: usize = 0;
                assert(o.entries@.take(0) =~= Seq::empty());
                while i < o.entries.len()
                    invariant
                        i <= o.entries@.len(),
                        entries_view(out@) == entries_view(o.entries@.take(i as int)),
                        *self == JsonValue::Object(*o),
                    decreases o.entries@.len() - i,
                {
                    let ghost prefix = o.entries@.take(i as int);
                    let k = o.entries[i].0.clone();
                    assert(decreases_to!(*self => self->Object_0.entries@[i as int].1));
                    let v = o.entries[i].1.copy();
                    proof {
                        lemma_entries_push(prefix, o.entries@[i as int]);
                        lemma_entries_push(out@, (k, v));
                        assert(prefix.push(o.entries@[i as int]) =~= o.entries@.take(i as int + 1));
                    }
                    out.push((k, v));
                    i = i + 1;
                }
                assert(o.entries@.take(i as int) =~= o.entries@);
                JsonValue::Object(Object { entries: out })
            },
        }
    }
}

impl Clone for JsonValue {
    fn clone(&self) -> (r: Self)
        ensures
            r@ == self@,
    {
        self.copy()
    }
}

} // verus!
