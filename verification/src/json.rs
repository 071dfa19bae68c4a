//! JSON values as plain data, and the calls into serde_json that read and print
//! them.

use crate::text::same;
use serde_json::Value;
use vstd::prelude::*;
use vstd::utf8::encode_utf8;

verus! {

/// A JSON number that is not an integer, kept as the text that serde_json prints
/// for it. Only what serde_json has read or printed becomes one, so the text
/// always reads back as the same number.
#[derive(Debug)]
pub struct Real {
    text: String,
}

impl View for Real {
    type V = Seq<char>;

    closed spec fn view(&self) -> Seq<char> {
        self.text@
    }
}

impl Real {
    /// The number as text.
    pub fn text(&self) -> (r: &str)
        ensures
            r@ == self@,
    {
        self.text.as_str()
    }

    pub fn copy(&self) -> (r: Real)
        ensures
            r@ == self@,
    {
        Real { text: self.text.clone() }
    }
}

/// A JSON number.
#[derive(Debug)]
pub enum Number {
    Unsigned(u64),
    Negative(i64),
    Real(Real),
}

/// What a [`Number`] is, without its representation.
pub enum NumberView {
    Int(int),
    Real(Seq<char>),
}

impl View for Number {
    type V = NumberView;

    open spec fn view(&self) -> NumberView {
        match self {
            Number::Unsigned(n) => NumberView::Int(*n as int),
            Number::Negative(n) => NumberView::Int(*n as int),
            Number::Real(t) => NumberView::Real(t@),
        }
    }
}

impl Number {
    /// One, written with its fraction.
    pub fn one() -> (r: Number)
        ensures
            r@ == NumberView::Real("1.0"@),
    {
        Number::Real(Real { text: "1.0".to_owned() })
    }

    pub fn copy(&self) -> (r: Number)
        ensures
            r@ == self@,
    {
        match self {
            Number::Unsigned(n) => Number::Unsigned(*n),
            Number::Negative(n) => Number::Negative(*n),
            Number::Real(t) => Number::Real(t.copy()),
        }
    }
}

/// A JSON value.
#[derive(Debug)]
pub enum Json {
    Null,
    Bool(bool),
    Number(Number),
    Str(String),
    Array(Vec<Json>),
    Object(Members),
}

/// The members of a JSON object. A name that stands in the list twice has the
/// value that comes last.
#[derive(Debug)]
pub struct Members {
    pub list: Vec<(String, Json)>,
}

/// What a [`Json`] is: an object is a map from names to values.
pub enum JsonView {
    Null,
    Bool(bool),
    Number(NumberView),
    Str(Seq<char>),
    Array(Seq<JsonView>),
    Object(Map<Seq<char>, JsonView>),
}

impl View for Json {
    type V = JsonView;

    open spec fn view(&self) -> JsonView {
        json_view(*self)
    }
}

impl View for Members {
    type V = Map<Seq<char>, JsonView>;

    open spec fn view(&self) -> Map<Seq<char>, JsonView> {
        members_view(self.list@, self.list@.len())
    }
}

/// The value that a [`Json`] stands for.
pub open spec fn json_view(j: Json) -> JsonView
    decreases j, 0nat,
{
    match j {
        Json::Null => JsonView::Null,
        Json::Bool(b) => JsonView::Bool(b),
        Json::Number(n) => JsonView::Number(n@),
        Json::Str(s) => JsonView::Str(s@),
        Json::Array(v) => JsonView::Array(items_view(v@, v@.len())),
        Json::Object(m) => JsonView::Object(members_view(m.list@, m.list@.len())),
    }
}

/// The values that the first `n` of a list stand for.
pub open spec fn items_view(items: Seq<Json>, n: nat) -> Seq<JsonView>
    decreases items, n,
{
    if n == 0 || n > items.len() {
        Seq::empty()
    } else {
        items_view(items, (n - 1) as nat).push(json_view(items[n - 1]))
    }
}

/// The map that the first `n` members of a list stand for.
pub open spec fn members_view(list: Seq<(String, Json)>, n: nat) -> Map<Seq<char>, JsonView>
    decreases list, n,
{
    if n == 0 || n > list.len() {
        Map::empty()
    } else {
        members_view(list, (n - 1) as nat).insert(list[n - 1].0@, json_view(list[n - 1].1))
    }
}

/// A value of serde_json.
#[verifier::external_type_specification]
#[verifier::external_body]
pub struct ExValue(serde_json::Value);

/// What serde_json reports of a text that it cannot read.
#[verifier::external_type_specification]
#[verifier::external_body]
pub struct ExError(serde_json::Error);

/// What a value of serde_json holds.
pub uninterp spec fn value_content(v: serde_json::Value) -> JsonView;

/// The value that `serde_json::from_str` reads from a text, if it is JSON.
pub uninterp spec fn json_parsed(text: Seq<char>) -> Option<JsonView>;

/// The value that `serde_json::from_slice` reads from bytes, if they are JSON.
pub uninterp spec fn json_parsed_bytes(bytes: Seq<u8>) -> Option<JsonView>;

/// The text of the error that `serde_json::from_slice` reports for bytes that are not
/// JSON.
pub uninterp spec fn json_fault(bytes: Seq<u8>) -> Seq<char>;

/// The compact text that serde_json prints for a value.
pub uninterp spec fn json_text(j: JsonView) -> Seq<char>;

/// The indented text that serde_json prints for a value.
pub uninterp spec fn json_pretty(j: JsonView) -> Seq<char>;

/// The first value that a stream of `serde_json::Deserializer` reads from a text.
pub uninterp spec fn json_first(text: Seq<char>) -> Option<JsonView>;

/// What serde_json makes of a text that `str::parse` reads as a floating-point
/// number: `None` where the text is none, `Some(None)` where the number is not
/// finite, else the text that serde_json prints for it.
pub uninterp spec fn real_reading(text: Seq<char>) -> Option<Option<Seq<char>>>;

/// Builds the `serde_json::Value` that holds what `j` holds: each variant becomes
/// its counterpart, and the members of an object are inserted in order.
#[verifier::external_body]
fn to_value(j: &Json) -> (v: Value)
    ensures
        value_content(v) == j@,
{
    match j {
        Json::Null => Value::Null,
        Json::Bool(b) => Value::from(*b),
        Json::Number(Number::Unsigned(n)) => Value::from(*n),
        Json::Number(Number::Negative(n)) => Value::from(*n),
        Json::Number(Number::Real(r)) => Value::from(r.text.parse().ok().and_then(serde_json::Number::from_f64)),
        Json::Str(s) => Value::from(s.as_str()),
        Json::Array(v) => v.iter().map(to_value).collect(),
        Json::Object(m) => m.list.iter().map(|x| (x.0.as_str(), to_value(&x.1))).collect(),
    }
}

/// Reads a `serde_json::Value` into a [`Json`], variant by variant; a number that
/// is neither a `u64` nor an `i64` keeps the text that `Number`'s `Display` prints.
#[verifier::external_body]
pub(crate) fn from_value(v: &Value) -> (r: Json)
    ensures
        r@ == value_content(*v),
{
    match v {
        Value::Null => Json::Null,
        Value::Bool(b) => Json::Bool(*b),
        Value::Number(n) => Json::Number(
            n.as_u64().map(Number::Unsigned).or(n.as_i64().map(Number::Negative)).unwrap_or(
                Number::Real(Real { text: n.to_string() }),
            ),
        ),
        Value::String(s) => Json::Str(s.clone()),
        Value::Array(v) => Json::Array(v.iter().map(from_value).collect()),
        Value::Object(m) => Json::Object(Members { list: m.iter().map(|x| (x.0.clone(), from_value(x.1))).collect() }),
    }
}

/// `serde_json::from_str` into a `Value`. It reads a text as one JSON value; which
/// texts it accepts, and what each holds, is left to the name.
#[verifier::external_body]
fn read_value(text: &str) -> (r: Result<serde_json::Value, serde_json::Error>)
    ensures
        match r {
            Ok(v) => json_parsed(text@) == Some(value_content(v)),
            Err(e) => json_parsed(text@) is None,
        },
{
    serde_json::from_str(text)
}

/// The first item of `serde_json::Deserializer::from_str(..).into_iter::<Value>()`:
/// the value that a text starts with, whatever follows it.
#[verifier::external_body]
fn read_first_value(text: &str) -> (r: Option<serde_json::Value>)
    ensures
        match r {
            Some(v) => json_first(text@) == Some(value_content(v)),
            None => json_first(text@) is None,
        },
{
    serde_json::Deserializer::from_str(text).into_iter::<serde_json::Value>().next()?.ok()
}

/// `serde_json::from_slice` into a `Value`: the same for bytes.
#[verifier::external_body]
fn read_value_bytes(bytes: &[u8]) -> (r: Result<serde_json::Value, serde_json::Error>)
    ensures
        match r {
            Ok(v) => json_parsed_bytes(bytes@) == Some(value_content(v)),
            Err(e) => json_parsed_bytes(bytes@) is None,
        },
{
    serde_json::from_slice(bytes)
}

/// The `Display` of what `serde_json::from_slice` reports for bytes. It reports something
/// exactly where it reads no value; what it says is left to the name.
#[verifier::external_body]
fn explain_bytes(bytes: &[u8]) -> (r: Option<String>)
    ensures
        match r {
            Some(e) => json_parsed_bytes(bytes@) is None && e@ == json_fault(bytes@),
            None => json_parsed_bytes(bytes@) is Some,
        },
{
    serde_json::from_slice::<Value>(bytes).err().map(|e| e.to_string())
}

/// Whether a value holds no number that is not an integer, and nests arrays and objects
/// at most so deep.
pub open spec fn is_plain(j: JsonView, depth: nat) -> bool
    decreases depth,
{
    match j {
        JsonView::Number(NumberView::Real(_)) => false,
        JsonView::Array(items) => depth > 0 && forall|i: int|
            0 <= i < items.len() ==> is_plain(#[trigger] items[i], (depth - 1) as nat),
        JsonView::Object(m) => depth > 0 && forall|k: Seq<char>| #[trigger]
            m.contains_key(k) ==> is_plain(m[k], (depth - 1) as nat),
        _ => true,
    }
}

/// `Display` of `serde_json::Value`: the compact text of a value, which is never empty.
/// `serde_json::from_slice` reads it back as the same value where the value holds integers
/// alone and stays below the depth at which the reader gives up; of other values nothing
/// is claimed here.
#[verifier::external_body]
fn print_value(v: &serde_json::Value) -> (r: String)
    ensures
        r@ == json_text(value_content(*v)),
        encode_utf8(r@).len() > 0,
        is_plain(value_content(*v), 127) ==> json_parsed_bytes(encode_utf8(r@)) == Some(value_content(*v)),
{
    v.to_string()
}

/// The alternate form (`{:#}`) of `serde_json::Value`'s `Display`: the text of a
/// value, indented by two spaces.
#[verifier::external_body]
fn print_value_pretty(v: &serde_json::Value) -> (r: String)
    ensures
        r@ == json_pretty(value_content(*v)),
{
    format!("{:#}", v)
}

/// `str::parse` to a floating-point number, then `serde_json::Number::from_f64`,
/// which refuses what is not finite. What is read is left to the name.
#[verifier::external_body]
fn read_real(text: &str) -> (r: Option<Option<Real>>)
    ensures
        match r {
            None => real_reading(text@) is None,
            Some(None) => real_reading(text@) == Some(None::<Seq<char>>),
            Some(Some(x)) => real_reading(text@) == Some(Some(x@)),
        },
{
    let number = text.parse().ok().map(serde_json::Number::from_f64);
    number.map(|n| n.map(|x| Real { text: x.to_string() }))
}

/// A member of an object.
pub open spec fn member(j: JsonView, name: Seq<char>) -> Option<JsonView> {
    match j {
        JsonView::Object(m) => if m.contains_key(name) {
            Some(m[name])
        } else {
            None
        },
        _ => None,
    }
}

/// The text of a member that is a string.
pub open spec fn member_text(j: JsonView, name: Seq<char>) -> Option<Seq<char>> {
    match member(j, name) {
        Some(JsonView::Str(t)) => Some(t),
        _ => None,
    }
}

/// The number of a member that is an unsigned integer.
pub open spec fn member_u64(j: JsonView, name: Seq<char>) -> Option<u64> {
    match member(j, name) {
        Some(JsonView::Number(NumberView::Int(n))) => if 0 <= n <= u64::MAX {
            Some(n as u64)
        } else {
            None
        },
        _ => None,
    }
}

/// The items of a member that is an array.
pub open spec fn member_array(j: JsonView, name: Seq<char>) -> Option<Seq<JsonView>> {
    match member(j, name) {
        Some(JsonView::Array(items)) => Some(items),
        _ => None,
    }
}

/// An object without members.
pub open spec fn empty_object() -> JsonView {
    JsonView::Object(Map::empty())
}

/// A member of an object, or `Null` where there is none.
pub open spec fn field(j: JsonView, name: Seq<char>) -> JsonView {
    match j {
        JsonView::Object(m) => if m.contains_key(name) { m[name] } else { JsonView::Null },
        _ => JsonView::Null,
    }
}

/// Reads a text as JSON.
pub fn parse(text: &str) -> (r: Option<Json>)
    ensures
        r is Some <==> json_parsed(text@) is Some,
        r matches Some(j) ==> json_parsed(text@) == Some(j@),
{
    match read_value(text) {
        Ok(v) => Some(from_value(&v)),
        Err(_) => None,
    }
}

/// Reads the value that a text starts with.
pub fn parse_first(text: &str) -> (r: Option<Json>)
    ensures
        r is Some <==> json_first(text@) is Some,
        r matches Some(j) ==> json_first(text@) == Some(j@),
{
    match read_first_value(text) {
        Some(v) => Some(from_value(&v)),
        None => None,
    }
}

/// Reads bytes as JSON.
pub fn parse_bytes(bytes: &[u8]) -> (r: Option<Json>)
    ensures
        r is Some <==> json_parsed_bytes(bytes@) is Some,
        r matches Some(j) ==> json_parsed_bytes(bytes@) == Some(j@),
{
    match read_value_bytes(bytes) {
        Ok(v) => Some(from_value(&v)),
        Err(_) => None,
    }
}

/// Reads a text as a floating-point number: `None` where it is none, `Null` where
/// the number is not finite.
pub fn parse_real(text: &str) -> (r: Option<Json>)
    ensures
        r is Some <==> real_reading(text@) is Some,
        r matches Some(j) ==> j@ == (match real_reading(text@)->0 {
            Some(t) => JsonView::Number(NumberView::Real(t)),
            None => JsonView::Null,
        }),
{
    match read_real(text) {
        None => None,
        Some(None) => Some(Json::Null),
        Some(Some(x)) => Some(Json::Number(Number::Real(x))),
    }
}

proof fn lemma_items_view(items: Seq<Json>, n: nat)
    requires
        n <= items.len(),
    ensures
        items_view(items, n).len() == n,
        forall|i: int| 0 <= i < n ==> #[trigger] items_view(items, n)[i] == items[i]@,
    decreases n,
{
    if n > 0 {
        lemma_items_view(items, (n - 1) as nat);
    }
}

proof fn lemma_items_view_prefix(a: Seq<Json>, b: Seq<Json>, n: nat)
    requires
        n <= a.len(),
        n <= b.len(),
        forall|i: int| 0 <= i < n ==> a[i]@ == b[i]@,
    ensures
        items_view(a, n) == items_view(b, n),
    decreases n,
{
    if n > 0 {
        lemma_items_view_prefix(a, b, (n - 1) as nat);
        assert(a[n - 1]@ == b[n - 1]@);
    }
}

proof fn lemma_members_view_prefix(a: Seq<(String, Json)>, b: Seq<(String, Json)>, n: nat)
    requires
        n <= a.len(),
        n <= b.len(),
        forall|i: int| 0 <= i < n ==> a[i].0@ == b[i].0@ && a[i].1@ == b[i].1@,
    ensures
        members_view(a, n) == members_view(b, n),
    decreases n,
{
    if n > 0 {
        lemma_members_view_prefix(a, b, (n - 1) as nat);
        assert(a[n - 1].0@ == b[n - 1].0@ && a[n - 1].1@ == b[n - 1].1@);
    }
}

/// Reads bytes as JSON, or says what is wrong with them.
pub fn parse_or_explain(bytes: &[u8]) -> (r: Result<Json, String>)
    ensures
        match r {
            Ok(j) => json_parsed_bytes(bytes@) == Some(j@),
            Err(e) => json_parsed_bytes(bytes@) is None && e@ == json_fault(bytes@),
        },
{
    match parse_bytes(bytes) {
        Some(j) => Ok(j),
        None => match explain_bytes(bytes) {
            Some(e) => Err(e),
            None => vstd::pervasive::unreached(),
        },
    }
}

/// What a list of values holds.
pub open spec fn views(items: Seq<Json>) -> Seq<JsonView> {
    items.map_values(|j: Json| j@)
}

/// A value added to a list adds what it holds.
pub proof fn lemma_views_push(items: Seq<Json>, j: Json)
    ensures
        views(items.push(j)) == views(items).push(j@),
{
    assert(views(items.push(j)) =~= views(items).push(j@));
}

impl Json {
    /// An array holds what its items hold.
    pub proof fn lemma_array_views(v: Vec<Json>)
        ensures
            Json::Array(v)@ == JsonView::Array(views(v@)),
    {
        Json::lemma_array(v);
        assert(Json::Array(v)@->Array_0 =~= views(v@));
    }

    /// An array of values.
    pub fn array(items: Vec<Json>) -> (r: Json)
        ensures
            r@ == JsonView::Array(views(items@)),
    {
        proof {
            Json::lemma_array_views(items);
        }
        Json::Array(items)
    }

    /// The items of an array stand for the array's values, one by one.
    pub proof fn lemma_array(v: Vec<Json>)
        ensures
            Json::Array(v)@ is Array,
            Json::Array(v)@->Array_0.len() == v@.len(),
            forall|i: int| 0 <= i < v@.len() ==> #[trigger] Json::Array(v)@->Array_0[i] == v@[i]@,
    {
        lemma_items_view(v@, v@.len());
    }

    /// The value as compact JSON text.
    pub fn to_text(&self) -> (r: String)
        ensures
            r@ == json_text(self@),
            encode_utf8(r@).len() > 0,
            is_plain(self@, 127) ==> json_parsed_bytes(encode_utf8(r@)) == Some(self@),
    {
        print_value(&to_value(self))
    }

    /// The value as indented JSON text.
    pub fn to_text_pretty(&self) -> (r: String)
        ensures
            r@ == json_pretty(self@),
    {
        print_value_pretty(&to_value(self))
    }

    /// A text as a JSON string.
    pub fn str(text: &str) -> (r: Json)
        ensures
            r@ == JsonView::Str(text@),
    {
        Json::Str(text.to_owned())
    }

    /// A number as a JSON number.
    pub fn num(n: u64) -> (r: Json)
        ensures
            r@ == JsonView::Number(NumberView::Int(n as int)),
    {
        Json::Number(Number::Unsigned(n))
    }

    /// A value of its own with the same content.
    pub fn copy(&self) -> (r: Json)
        ensures
            r@ == self@,
        decreases self,
    {
        match self {
            Json::Null => Json::Null,
            Json::Bool(b) => Json::Bool(*b),
            Json::Number(n) => Json::Number(n.copy()),
            Json::Str(s) => Json::Str(s.clone()),
            Json::Array(v) => {
                let mut out: Vec<Json> = Vec::new();
                let mut i: usize = 0;
                while i < v.len()
                    invariant
                        i <= v.len(),
                        out@.len() == i,
                        self == Json::Array(*v),
                        forall|k: int| 0 <= k < i ==> out@[k]@ == v@[k]@,
                    decreases v.len() - i,
                {
                    assert(decreases_to!(self => self->Array_0));
                    assert(decreases_to!(v => v[i as int]));
                    let item = v[i].copy();
                    out.push(item);
                    i = i + 1;
                }
                proof {
                    lemma_items_view_prefix(out@, v@, v@.len());
                }
                Json::Array(out)
            },
            Json::Object(m) => {
                let mut out: Vec<(String, Json)> = Vec::new();
                let mut i: usize = 0;
                while i < m.list.len()
                    invariant
                        i <= m.list.len(),
                        out@.len() == i,
                        self == Json::Object(*m),
                        forall|k: int| 0 <= k < i ==> out@[k].0@ == m.list@[k].0@ && out@[k].1@ == m.list@[k].1@,
                    decreases m.list.len() - i,
                {
                    let name = m.list[i].0.clone();
                    assert(decreases_to!(self => self->Object_0));
                    assert(decreases_to!(m => m.list));
                    assert(decreases_to!(m.list => m.list[i as int]));
                    assert(decreases_to!(m.list[i as int] => m.list[i as int].1));
                    let value = m.list[i].1.copy();
                    out.push((name, value));
                    i = i + 1;
                }
                proof {
                    lemma_members_view_prefix(out@, m.list@, m.list@.len());
                }
                Json::Object(Members { list: out })
            },
        }
    }

    /// A member of an object.
    pub fn get(&self, name: &str) -> (r: Option<&Json>)
        ensures
            match self@ {
                JsonView::Object(m) => match r {
                    Some(v) => m.contains_key(name@) && v@ == m[name@],
                    None => !m.contains_key(name@),
                },
                _ => r is None,
            },
            r is None ==> field(self@, name@) == JsonView::Null,
            r matches Some(v) ==> field(self@, name@) == v@,
            r is None ==> member(self@, name@) is None,
            r matches Some(v) ==> member(self@, name@) == Some(v@),
    {
        match self {
            Json::Object(m) => m.get(name),
            _ => None,
        }
    }

    /// The text of a member that is a string.
    pub fn get_str(&self, name: &str) -> (r: Option<&str>)
        ensures
            match r {
                Some(t) => member_text(self@, name@) == Some(t@),
                None => member_text(self@, name@) is None,
            },
    {
        match self.get(name) {
            Some(j) => j.as_str(),
            None => None,
        }
    }

    /// The number of a member that is an unsigned integer.
    pub fn get_u64(&self, name: &str) -> (r: Option<u64>)
        ensures
            r == member_u64(self@, name@),
    {
        match self.get(name) {
            Some(j) => j.as_u64(),
            None => None,
        }
    }

    /// The items of a member that is an array.
    pub fn get_array(&self, name: &str) -> (r: Option<&Vec<Json>>)
        ensures
            match r {
                Some(v) => member_array(self@, name@) == Some(views(v@)),
                None => member_array(self@, name@) is None,
            },
    {
        match self.get(name) {
            Some(Json::Array(v)) => {
                proof {
                    Json::lemma_array_views(*v);
                }
                Some(v)
            },
            _ => None,
        }
    }

    /// An object without members.
    pub fn empty() -> (r: Json)
        ensures
            r@ == empty_object(),
    {
        Json::Object(Members::new())
    }

    /// The text of a string.
    pub fn as_str(&self) -> (r: Option<&str>)
        ensures
            match r {
                Some(t) => self@ == JsonView::Str(t@),
                None => !(self@ is Str),
            },
    {
        match self {
            Json::Str(s) => Some(s.as_str()),
            _ => None,
        }
    }

    /// The number, where it is an unsigned integer.
    pub fn as_u64(&self) -> (r: Option<u64>)
        ensures
            match r {
                Some(n) => self@ == JsonView::Number(NumberView::Int(n as int)),
                None => !(self@ matches JsonView::Number(NumberView::Int(n)) && 0 <= n <= u64::MAX),
            },
    {
        match self {
            Json::Number(Number::Unsigned(n)) => Some(*n),
            Json::Number(Number::Negative(n)) => if *n >= 0 {
                Some(*n as u64)
            } else {
                None
            },
            _ => None,
        }
    }

    /// Whether the value is `null`.
    pub fn is_null(&self) -> (r: bool)
        ensures
            r == (self@ == JsonView::Null),
    {
        matches!(self, Json::Null)
    }
}

impl Members {
    /// An object without members.
    pub fn new() -> (r: Members)
        ensures
            r@ == Map::<Seq<char>, JsonView>::empty(),
    {
        Members { list: Vec::new() }
    }

    /// Members of their own with the same content.
    pub fn copy(&self) -> (r: Members)
        ensures
            r@ == self@,
    {
        let mut out = Members::new();
        let mut i: usize = 0;
        while i < self.list.len()
            invariant
                i <= self.list@.len(),
                out@ == members_view(self.list@, i as nat),
            decreases self.list.len() - i,
        {
            out.put(self.list[i].0.as_str(), self.list[i].1.copy());
            i = i + 1;
        }
        out
    }

    /// Gives a member a value, in place of the one it had.
    pub fn put(&mut self, name: &str, value: Json)
        ensures
            final(self)@ == old(self)@.insert(name@, value@),
    {
        let ghost before = self.list@;
        self.list.push((name.to_owned(), value));
        proof {
            lemma_members_view_prefix(before, self.list@, before.len());
        }
    }

    /// The members but one.
    pub fn without(&self, name: &str) -> (r: Members)
        ensures
            r@ == self@.remove(name@),
    {
        let mut out = Members::new();
        let mut i: usize = 0;
        assert(out@ =~= members_view(self.list@, 0).remove(name@));
        while i < self.list.len()
            invariant
                i <= self.list@.len(),
                out@ == members_view(self.list@, i as nat).remove(name@),
            decreases self.list.len() - i,
        {
            let ghost was = members_view(self.list@, i as nat);
            if !same(self.list[i].0.as_str(), name) {
                out.put(self.list[i].0.as_str(), self.list[i].1.copy());
            }
            assert(out@ =~= members_view(self.list@, (i + 1) as nat).remove(name@));
            i = i + 1;
        }
        out
    }

    /// The value of a member.
    pub fn get(&self, name: &str) -> (r: Option<&Json>)
        ensures
            match r {
                Some(v) => self@.contains_key(name@) && v@ == self@[name@],
                None => !self@.contains_key(name@),
            },
    {
        let mut i: usize = self.list.len();
        while i > 0
            invariant
                i <= self.list@.len(),
                self@.contains_key(name@) == members_view(self.list@, i as nat).contains_key(name@),
                self@.contains_key(name@) ==> self@[name@] == members_view(self.list@, i as nat)[name@],
            decreases i,
        {
            if same(self.list[i - 1].0.as_str(), name) {
                return Some(&self.list[i - 1].1);
            }
            i = i - 1;
        }
        None
    }
}

/// Texts as a JSON array.
pub open spec fn text_array(list: Seq<Seq<char>>) -> JsonView {
    JsonView::Array(list.map_values(|t: Seq<char>| JsonView::Str(t)))
}

/// A list of strings as a JSON array.
pub fn texts_to_json(list: &Vec<String>) -> (r: Json)
    ensures
        r@ == text_array(crate::text::texts(list@)),
{
    let mut out: Vec<Json> = Vec::new();
    let mut i: usize = 0;
    while i < list.len()
        invariant
            i <= list@.len(),
            out@.len() == i,
            forall|k: int| 0 <= k < i ==> (#[trigger] out@[k])@ == JsonView::Str(list@[k]@),
        decreases list.len() - i,
    {
        out.push(Json::str(list[i].as_str()));
        i = i + 1;
    }
    proof {
        Json::lemma_array(out);
        assert(Json::Array(out)@->Array_0 =~= crate::text::texts(list@).map_values(|t: Seq<char>| JsonView::Str(t)));
    }
    Json::Array(out)
}

/// A member is read from an object by its name, and as what it is.
pub proof fn law_a_member_is_read_by_its_name(m: Map<Seq<char>, JsonView>, name: Seq<char>)
    ensures
        m.contains_key(name) ==> member(JsonView::Object(m), name) == Some(m[name]) && field(JsonView::Object(m), name)
            == m[name],
        !m.contains_key(name) ==> member(JsonView::Object(m), name) is None && field(JsonView::Object(m), name)
            == JsonView::Null,
        member(JsonView::Object(m), name) matches Some(JsonView::Str(t)) ==> member_text(JsonView::Object(m), name) == Some(
            t,
        ),
        member(JsonView::Object(m), name) matches Some(JsonView::Array(a)) ==> member_array(JsonView::Object(m), name)
            == Some(a),
        member(JsonView::Object(m), name) matches Some(JsonView::Number(NumberView::Int(n))) ==> (0 <= n <= u64::MAX
            ==> member_u64(JsonView::Object(m), name) == Some(n as u64)),
{
}

/// A list of texts holds each of them, in order.
pub proof fn law_a_list_of_texts_holds_each(list: Seq<Seq<char>>, i: int)
    requires
        0 <= i < list.len(),
    ensures
        text_array(list) matches JsonView::Array(a) && a.len() == list.len() && a[i] == JsonView::Str(list[i]),
{
}

} // verus!
