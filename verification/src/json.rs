//! The library's own JSON value, its mathematical model, and the
//! serde_json calls that read and write JSON text.

use vstd::prelude::*;
use crate::text::{owned, text_eq};

verus! {

/// A JSON number as serde_json keeps it: a non-negative integer, a negative
/// integer, or any other number kept as its decimal text.
#[derive(Debug, Clone, PartialEq)]
pub enum JsonNumber {
    /// A non-negative integer.
    PosInt(u64),
    /// A negative integer.
    NegInt(i64),
    /// A number that is not an integer, as the decimal text serde_json prints for it.
    Float(String),
}

/// A JSON value.
#[derive(Debug, PartialEq)]
pub enum Json {
    /// `null`.
    Null,
    /// `true` or `false`.
    Bool(bool),
    /// A number.
    Number(JsonNumber),
    /// A string.
    Str(String),
    /// An array.
    Array(Vec<Json>),
    /// An object: its members in order. A value parsed from text has unique keys; `get` reads
    /// the first member of a name, and rendering keeps the last.
    Object(Vec<(String, Json)>),
}

/// Model of [`JsonNumber`].
pub enum NumberV {
    PosInt(u64),
    NegInt(i64),
    Float(Seq<char>),
}

/// Model of [`Json`].
pub enum JsonV {
    Null,
    Bool(bool),
    Number(NumberV),
    Str(Seq<char>),
    Array(Seq<JsonV>),
    Object(Seq<(Seq<char>, JsonV)>),
}

impl View for JsonNumber {
    type V = NumberV;

    open spec fn view(&self) -> NumberV {
        match self {
            JsonNumber::PosInt(n) => NumberV::PosInt(*n),
            JsonNumber::NegInt(n) => NumberV::NegInt(*n),
            JsonNumber::Float(s) => NumberV::Float(s@),
        }
    }
}

/// Model of one JSON value.
pub open spec fn json_view(j: Json) -> JsonV
    decreases j,
{
    match j {
        Json::Null => JsonV::Null,
        Json::Bool(b) => JsonV::Bool(b),
        Json::Number(n) => JsonV::Number(n@),
        Json::Str(s) => JsonV::Str(s@),
        Json::Array(items) => JsonV::Array(items_view(items@)),
        Json::Object(members) => JsonV::Object(members_view(members@)),
    }
}

/// Model of a run of JSON values.
pub open spec fn items_view(s: Seq<Json>) -> Seq<JsonV>
    decreases s,
{
    if s.len() == 0 {
        Seq::empty()
    } else {
        items_view(s.drop_last()).push(json_view(s.last()))
    }
}

/// Model of a run of object members.
pub open spec fn members_view(s: Seq<(String, Json)>) -> Seq<(Seq<char>, JsonV)>
    decreases s,
{
    if s.len() == 0 {
        Seq::empty()
    } else {
        members_view(s.drop_last()).push((s.last().0@, json_view(s.last().1)))
    }
}

impl View for Json {
    type V = JsonV;

    open spec fn view(&self) -> JsonV {
        json_view(*self)
    }
}

pub proof fn lemma_items_view(s: Seq<Json>)
    ensures
        items_view(s).len() == s.len(),
        forall|i: int| 0 <= i < s.len() ==> #[trigger] items_view(s)[i] == json_view(s[i]),
    decreases s.len(),
{
    if s.len() > 0 {
        lemma_items_view(s.drop_last());
        assert forall|i: int| 0 <= i < s.len() implies #[trigger] items_view(s)[i] == json_view(s[i]) by {
            if i < s.len() - 1 {
                assert(s.drop_last()[i] == s[i]);
            }
        }
    }
}

pub proof fn lemma_members_view(s: Seq<(String, Json)>)
    ensures
        members_view(s).len() == s.len(),
        forall|i: int| 0 <= i < s.len() ==> #[trigger] members_view(s)[i] == (s[i].0@, json_view(s[i].1)),
    decreases s.len(),
{
    if s.len() > 0 {
        lemma_members_view(s.drop_last());
        assert forall|i: int| 0 <= i < s.len() implies #[trigger] members_view(s)[i] == (s[i].0@, json_view(s[i].1)) by {
            if i < s.len() - 1 {
                assert(s.drop_last()[i] == s[i]);
            }
        }
    }
}

/// Value of the first member named `key`.
pub open spec fn member_get(m: Seq<(Seq<char>, JsonV)>, key: Seq<char>) -> Option<JsonV>
    decreases m.len(),
{
    if m.len() == 0 {
        None
    } else if m[0].0 == key {
        Some(m[0].1)
    } else {
        member_get(m.drop_first(), key)
    }
}

impl JsonV {
    /// Field `key` of an object; `None` for other values or a missing field.
    pub open spec fn get(self, key: Seq<char>) -> Option<JsonV> {
        match self {
            JsonV::Object(m) => member_get(m, key),
            _ => None,
        }
    }

    pub open spec fn as_str(self) -> Option<Seq<char>> {
        match self {
            JsonV::Str(s) => Some(s),
            _ => None,
        }
    }

    pub open spec fn as_bool(self) -> Option<bool> {
        match self {
            JsonV::Bool(b) => Some(b),
            _ => None,
        }
    }

    /// The value as an unsigned integer, when it is a non-negative integer.
    pub open spec fn as_u64(self) -> Option<u64> {
        match self {
            JsonV::Number(NumberV::PosInt(n)) => Some(n),
            JsonV::Number(NumberV::NegInt(n)) => if n >= 0 {
                Some(n as u64)
            } else {
                None
            },
            _ => None,
        }
    }

    pub open spec fn as_array(self) -> Option<Seq<JsonV>> {
        match self {
            JsonV::Array(a) => Some(a),
            _ => None,
        }
    }

    pub open spec fn is_object(self) -> bool {
        self is Object
    }

    pub open spec fn is_null(self) -> bool {
        self is Null
    }
}

/// `f` of an optional value, absent when the value is.
pub open spec fn opt_str(v: Option<JsonV>) -> Option<Seq<char>> {
    match v {
        Some(j) => j.as_str(),
        None => None,
    }
}

pub open spec fn opt_u64(v: Option<JsonV>) -> Option<u64> {
    match v {
        Some(j) => j.as_u64(),
        None => None,
    }
}

pub open spec fn opt_bool(v: Option<JsonV>) -> Option<bool> {
    match v {
        Some(j) => j.as_bool(),
        None => None,
    }
}

pub open spec fn opt_get(v: Option<JsonV>, key: Seq<char>) -> Option<JsonV> {
    match v {
        Some(j) => j.get(key),
        None => None,
    }
}

pub open spec fn opt_view(v: Option<&Json>) -> Option<JsonV> {
    match v {
        Some(j) => Some(j@),
        None => None,
    }
}

/// The value serde_json parses from `text`, `None` when the text is not JSON.
pub uninterp spec fn json_parse(text: Seq<char>) -> Option<JsonV>;

/// The compact text serde_json writes for a value.
pub uninterp spec fn json_render(value: JsonV) -> Seq<char>;

impl JsonNumber {
    pub fn duplicate(&self) -> (res: JsonNumber)
        ensures
            res@ == self@,
    {
        match self {
            JsonNumber::PosInt(n) => JsonNumber::PosInt(*n),
            JsonNumber::NegInt(n) => JsonNumber::NegInt(*n),
            JsonNumber::Float(s) => JsonNumber::Float(owned(s.as_str())),
        }
    }
}

impl Clone for Json {
    fn clone(&self) -> (res: Json) {
        self.duplicate()
    }
}

impl Json {
    /// A string value.
    pub fn string(s: &str) -> (res: Json)
        ensures
            res@ == JsonV::Str(s@),
    {
        Json::Str(owned(s))
    }

    /// An unsigned integer value.
    pub fn uint(n: u64) -> (res: Json)
        ensures
            res@ == JsonV::Number(NumberV::PosInt(n)),
    {
        Json::Number(JsonNumber::PosInt(n))
    }

    /// An empty object.
    pub fn empty_object() -> (res: Json)
        ensures
            res@ == JsonV::Object(Seq::empty()),
    {
        let members: Vec<(String, Json)> = Vec::new();
        proof {
            lemma_members_view(members@);
        }
        Json::Object(members)
    }

    /// A deep copy.
    pub fn duplicate(&self) -> (res: Json)
        ensures
            res@ == self@,
        decreases self,
    {
        match self {
            Json::Null => Json::Null,
            Json::Bool(b) => Json::Bool(*b),
            Json::Number(n) => Json::Number(n.duplicate()),
            Json::Str(s) => Json::Str(owned(s.as_str())),
            Json::Array(items) => {
                let mut out: Vec<Json> = Vec::new();
                let mut i: usize = 0;
                while i < items.len()
                    invariant
                        i <= items.len(),
                        out.len() == i,
                        forall|k: int| 0 <= k < i ==> json_view(#[trigger] out@[k]) == json_view(items@[k]),
                        *self == Json::Array(*items),
                    decreases items.len() - i,
                {
                    proof {
                        vstd::std_specs::vec::axiom_vec_index_decreases(*items, i as int);
                        assert(decreases_to!(*self => (*self)->Array_0));
                        assert(decreases_to!(*items => (*items)[i as int]));
                        assert(decreases_to!(*self => (*items)[i as int]));
                    }
                    let c = items[i].duplicate();
                    out.push(c);
                    i = i + 1;
                }
                proof {
                    lemma_items_view(out@);
                    lemma_items_view(items@);
                    assert(items_view(out@) =~= items_view(items@));
                }
                Json::Array(out)
            },
            Json::Object(members) => {
                let mut out: Vec<(String, Json)> = Vec::new();
                let mut i: usize = 0;
                while i < members.len()
                    invariant
                        i <= members.len(),
                        out.len() == i,
                        forall|k: int| 0 <= k < i ==> (#[trigger] out@[k]).0@ == members@[k].0@
                            && json_view(out@[k].1) == json_view(members@[k].1),
                        *self == Json::Object(*members),
                    decreases members.len() - i,
                {
                    proof {
                        vstd::std_specs::vec::axiom_vec_index_decreases(*members, i as int);
                        assert(decreases_to!(*self => (*self)->Object_0));
                        assert(decreases_to!(*members => (*members)[i as int]));
                        assert(decreases_to!((*members)[i as int] => (*members)[i as int].1));
                        assert(decreases_to!(*self => (*members)[i as int].1));
                    }
                    let k = owned(members[i].0.as_str());
                    let v = members[i].1.duplicate();
                    out.push((k, v));
                    i = i + 1;
                }
                proof {
                    lemma_members_view(out@);
                    lemma_members_view(members@);
                    assert(members_view(out@) =~= members_view(members@));
                }
                Json::Object(out)
            },
        }
    }

    /// Field `key` of an object.
    pub fn get(&self, key: &str) -> (res: Option<&Json>)
        ensures
            opt_view(res) == self@.get(key@),
    {
        match self {
            Json::Object(members) => {
                proof {
                    lemma_members_view(members@);
                }
                let ghost m = members_view(members@);
                let mut i: usize = 0;
                assert(m.subrange(0, m.len() as int) =~= m);
                while i < members.len()
                    invariant
                        i <= members.len(),
                        m == members_view(members@),
                        m.len() == members.len(),
                        forall|k: int| 0 <= k < members.len() ==> #[trigger] m[k] == (members@[k].0@, json_view(members@[k].1)),
                        member_get(m, key@) == member_get(m.subrange(i as int, m.len() as int), key@),
                        *self == Json::Object(*members),
                    decreases members.len() - i,
                {
                    let ghost rest = m.subrange(i as int, m.len() as int);
                    assert(rest.drop_first() =~= m.subrange(i + 1, m.len() as int));
                    assert(rest[0] == m[i as int]);
                    if text_eq(members[i].0.as_str(), key) {
                        assert(member_get(rest, key@) == Some(rest[0].1));
                        assert(self@.get(key@) == member_get(m, key@));
                        return Some(&members[i].1);
                    }
                    i = i + 1;
                }
                None
            },
            _ => None,
        }
    }

    pub fn as_str(&self) -> (res: Option<&str>)
        ensures
            match res {
                Some(s) => self@.as_str() == Some(s@),
                None => self@.as_str() is None,
            },
    {
        match self {
            Json::Str(s) => Some(s.as_str()),
            _ => None,
        }
    }

    pub fn as_bool(&self) -> (res: Option<bool>)
        ensures
            res == self@.as_bool(),
    {
        match self {
            Json::Bool(b) => Some(*b),
            _ => None,
        }
    }

    pub fn as_u64(&self) -> (res: Option<u64>)
        ensures
            res == self@.as_u64(),
    {
        match self {
            Json::Number(JsonNumber::PosInt(n)) => Some(*n),
            Json::Number(JsonNumber::NegInt(n)) => if *n >= 0 {
                Some(*n as u64)
            } else {
                None
            },
            _ => None,
        }
    }

    pub fn as_array(&self) -> (res: Option<&Vec<Json>>)
        ensures
            match res {
                Some(a) => self@.as_array() == Some(items_view(a@)),
                None => self@.as_array() is None,
            },
    {
        match self {
            Json::Array(a) => Some(a),
            _ => None,
        }
    }

    pub fn is_object(&self) -> (res: bool)
        ensures
            res == self@.is_object(),
    {
        match self {
            Json::Object(_) => true,
            _ => false,
        }
    }

    pub fn is_null(&self) -> (res: bool)
        ensures
            res == self@.is_null(),
    {
        match self {
            Json::Null => true,
            _ => false,
        }
    }

    /// Parses JSON text (serde_json's grammar).
    pub fn parse(text: &str) -> (res: Option<Json>)
        ensures
            match res {
                Some(j) => json_parse(text@) == Some(j@),
                None => json_parse(text@) is None,
            },
    {
        parse_json_text(text)
    }

    /// Compact JSON text of this value, as serde_json writes it.
    pub fn render(&self) -> (res: String)
        ensures
            res@ == json_render(self@),
    {
        render_json_text(self)
    }
}

/// Calls `serde_json::from_str` and converts the result into the library's value.
#[verifier::external_body]
fn parse_json_text(text: &str) -> (res: Option<Json>)
    ensures
        match res {
            Some(j) => json_parse(text@) == Some(j@),
            None => json_parse(text@) is None,
        },
{
    serde_json::from_str::<serde_json::Value>(text).ok().map(|v| from_serde(&v))
}

/// Converts the library's value and calls `serde_json::to_string` on it.
#[verifier::external_body]
fn render_json_text(value: &Json) -> (res: String)
    ensures
        res@ == json_render(value@),
{
    serde_json::to_string(&to_serde(value)).unwrap_or_default()
}

/// serde_json's own value type, carried through the conversions below.
#[verifier::external_type_specification]
#[verifier::external_body]
pub struct ExSerdeValue(serde_json::Value);

/// Converts a serde_json value into the library's value, variant for variant.
#[verifier::external_body]
fn from_serde(v: &serde_json::Value) -> Json {
    match v {
        serde_json::Value::Null => Json::Null,
        serde_json::Value::Bool(b) => Json::Bool(*b),
        serde_json::Value::Number(n) => Json::Number(number_from_serde(n)),
        serde_json::Value::String(s) => Json::Str(s.clone()),
        serde_json::Value::Array(a) => Json::Array(a.iter().map(from_serde).collect()),
        serde_json::Value::Object(o) => Json::Object(o.iter().map(|(k, v)| (k.clone(), from_serde(v))).collect()),
    }
}

/// serde_json's number type.
#[verifier::external_type_specification]
#[verifier::external_body]
pub struct ExSerdeNumber(serde_json::Number);

/// Converts a serde_json number: non-negative and negative integers as such, other numbers as their text.
#[verifier::external_body]
fn number_from_serde(n: &serde_json::Number) -> JsonNumber {
    match (n.as_u64(), n.as_i64()) {
        (Some(u), _) => JsonNumber::PosInt(u),
        (None, Some(i)) => JsonNumber::NegInt(i),
        _ => JsonNumber::Float(n.to_string()),
    }
}

/// Converts a number into a serde_json value (a number text that serde_json rejects becomes `null`).
#[verifier::external_body]
fn number_to_serde(n: &JsonNumber) -> serde_json::Value {
    match n {
        JsonNumber::PosInt(u) => serde_json::Value::from(*u),
        JsonNumber::NegInt(i) => serde_json::Value::from(*i),
        JsonNumber::Float(s) => s.parse::<serde_json::Number>().map(serde_json::Value::Number).unwrap_or(serde_json::Value::Null),
    }
}

/// Converts the library's value into a serde_json value, variant for variant.
#[verifier::external_body]
fn to_serde(v: &Json) -> serde_json::Value {
    match v {
        Json::Null => serde_json::Value::Null,
        Json::Bool(b) => serde_json::Value::Bool(*b),
        Json::Number(n) => number_to_serde(n),
        Json::Str(s) => serde_json::Value::String(s.clone()),
        Json::Array(a) => serde_json::Value::Array(a.iter().map(to_serde).collect()),
        Json::Object(o) => serde_json::Value::Object(o.iter().map(|(k, v)| (k.clone(), to_serde(v))).collect()),
    }
}

/// `o`, or `d` when absent.
pub open spec fn str_or(o: Option<Seq<char>>, d: Seq<char>) -> Seq<char> {
    match o {
        Some(s) => s,
        None => d,
    }
}

/// The text of `o` when it is present and not empty.
pub open spec fn non_empty(o: Option<Seq<char>>) -> Option<Seq<char>> {
    match o {
        Some(s) => if s.len() > 0 { Some(s) } else { None },
        None => None,
    }
}

/// Appends a member to a run of object members.
pub fn push_member(members: &mut Vec<(String, Json)>, key: &str, value: Json)
    ensures
        members_view(final(members)@) == members_view(old(members)@).push((key@, value@)),
{
    let ghost m0 = members@;
    members.push((owned(key), value));
    proof {
        assert(members@.drop_last() =~= m0);
    }
}

impl Json {
    /// An object holding `members`.
    pub fn object(members: Vec<(String, Json)>) -> (res: Json)
        ensures
            res@ == JsonV::Object(members_view(members@)),
    {
        Json::Object(members)
    }

    /// A boolean value.
    pub fn boolean(b: bool) -> (res: Json)
        ensures
            res@ == JsonV::Bool(b),
    {
        Json::Bool(b)
    }

    /// Text field `key` of an object.
    pub fn get_str(&self, key: &str) -> (res: Option<&str>)
        ensures
            match res {
                Some(s) => opt_str(self@.get(key@)) == Some(s@),
                None => opt_str(self@.get(key@)) is None,
            },
    {
        match self.get(key) {
            Some(v) => v.as_str(),
            None => None,
        }
    }

    /// Unsigned integer field `key` of an object.
    pub fn get_u64(&self, key: &str) -> (res: Option<u64>)
        ensures
            res == opt_u64(self@.get(key@)),
    {
        match self.get(key) {
            Some(v) => v.as_u64(),
            None => None,
        }
    }

    /// Boolean field `key` of an object.
    pub fn get_bool(&self, key: &str) -> (res: Option<bool>)
        ensures
            res == opt_bool(self@.get(key@)),
    {
        match self.get(key) {
            Some(v) => v.as_bool(),
            None => None,
        }
    }

    /// Field `camel` of an object, or field `snake` when the first is absent.
    pub fn field(&self, camel: &str, snake: &str) -> (res: Option<&Json>)
        ensures
            opt_view(res) == (match self@.get(camel@) {
                Some(v) => Some(v),
                None => self@.get(snake@),
            }),
    {
        match self.get(camel) {
            Some(v) => Some(v),
            None => self.get(snake),
        }
    }

    /// The first element of an array.
    pub fn first(&self) -> (res: Option<&Json>)
        ensures
            opt_view(res) == (match self@.as_array() {
                Some(a) => if a.len() > 0 { Some(a[0]) } else { None },
                None => None,
            }),
    {
        match self {
            Json::Array(a) => {
                proof {
                    lemma_items_view(a@);
                }
                if a.len() > 0 {
                    Some(&a[0])
                } else {
                    None
                }
            },
            _ => None,
        }
    }
}

} // verus!
