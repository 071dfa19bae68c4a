//! Queries: what is bound to them, what their rows become, and whose fault a failure is.

use crate::json::{Json, JsonView, Members, Number, NumberView, json_text, views};
use crate::manifest::QueryReturns;
use crate::text::{after_prefix, contains, contains_text, lowered, same, strip_prefix, to_lower, to_upper, trim, trimmed, uppered};
use vstd::prelude::*;

verus! {

/// The file that a database address names.
pub open spec fn file_of(url: Seq<char>) -> Seq<char> {
    match after_prefix(url, "sqlite://"@) {
        Some(f) => f,
        None => match after_prefix(url, "sqlite:"@) {
            Some(f) => f,
            None => url,
        },
    }
}

/// The file that a database address names.
pub fn strip_scheme(url: &str) -> (r: String)
    ensures
        r@ == file_of(url@),
{
    match strip_prefix(url, "sqlite://") {
        Some(f) => f,
        None => match strip_prefix(url, "sqlite:") {
            Some(f) => f,
            None => url.to_owned(),
        },
    }
}

/// How many connections a pool keeps at most: every connection to `:memory:` opens a
/// private, empty database, so exactly one is held.
pub fn pool_size(filename: &str, configured: u32) -> (r: u32)
    ensures
        r == if filename@ == ":memory:"@ {
            1
        } else {
            configured
        },
{
    if same(filename, ":memory:") {
        1
    } else {
        configured
    }
}

/// Whether a schema is to be applied.
pub fn has_schema(schema: &str) -> (r: bool)
    ensures
        r == (trimmed(schema@).len() > 0),
{
    !trim(schema).as_str().is_empty()
}

/// What a parameter of a query is bound to.
#[derive(Debug)]
pub enum Binding {
    Null,
    Bool(bool),
    Int(i64),
    /// A number that is no `i64`.
    Real(Number),
    Text(String),
}

/// What a [`Binding`] holds.
pub enum BindingView {
    Null,
    Bool(bool),
    Int(int),
    Real(NumberView),
    Text(Seq<char>),
}

impl View for Binding {
    type V = BindingView;

    open spec fn view(&self) -> BindingView {
        match self {
            Binding::Null => BindingView::Null,
            Binding::Bool(b) => BindingView::Bool(*b),
            Binding::Int(i) => BindingView::Int(*i as int),
            Binding::Real(n) => BindingView::Real(n@),
            Binding::Text(s) => BindingView::Text(s@),
        }
    }
}

/// What a value is bound as. Objects and arrays round-trip as JSON text.
pub open spec fn bound(v: JsonView) -> BindingView {
    match v {
        JsonView::Null => BindingView::Null,
        JsonView::Bool(b) => BindingView::Bool(b),
        JsonView::Number(NumberView::Int(n)) => if i64::MIN <= n <= i64::MAX {
            BindingView::Int(n)
        } else {
            BindingView::Real(NumberView::Int(n))
        },
        JsonView::Number(n) => BindingView::Real(n),
        JsonView::Str(s) => BindingView::Text(s),
        other => BindingView::Text(json_text(other)),
    }
}

/// What a value is bound as.
pub fn bind_value(v: &Json) -> (r: Binding)
    ensures
        r@ == bound(v@),
{
    match v {
        Json::Null => Binding::Null,
        Json::Bool(b) => Binding::Bool(*b),
        Json::Number(n) => match n {
            Number::Unsigned(u) => if *u <= i64::MAX as u64 {
                Binding::Int(*u as i64)
            } else {
                Binding::Real(Number::Unsigned(*u))
            },
            Number::Negative(i) => Binding::Int(*i),
            Number::Real(r) => Binding::Real(Number::Real(r.copy())),
        },
        Json::Str(s) => Binding::Text(s.clone()),
        other => Binding::Text(other.to_text()),
    }
}

/// What a column reads as: for each type, nothing where it does not read as that, else
/// the value, `null` included.
#[derive(Debug)]
pub struct Cell {
    pub int: Option<Json>,
    pub real: Option<Json>,
    pub boolean: Option<Json>,
    pub text: Option<Json>,
}

/// The first of some readings that is there.
pub open spec fn first_reading(readings: Seq<Option<Json>>) -> JsonView
    decreases readings.len(),
{
    if readings.len() == 0 {
        JsonView::Null
    } else {
        match readings[0] {
            Some(v) => v@,
            None => first_reading(readings.skip(1)),
        }
    }
}

/// A reading, where it is asked for.
pub open spec fn reading_if(asked: bool, r: Option<Json>) -> Seq<Option<Json>> {
    if asked {
        seq![r]
    } else {
        Seq::empty()
    }
}

/// The readings of a column in the order in which they are tried: SQLite is dynamically
/// typed, so the declared type comes first, then the other representations.
pub open spec fn readings(declared: Seq<char>, c: Cell) -> Seq<Option<Json>> {
    let upper = uppered(declared);
    reading_if(contains_text(upper, "INT"@), c.int) + reading_if(
        contains_text(upper, "REAL"@) || contains_text(upper, "FLOA"@) || contains_text(upper, "DOUB"@),
        c.real,
    ) + reading_if(contains_text(upper, "BOOL"@), c.boolean) + seq![c.text, c.int, c.real]
}

proof fn lemma_first_reading(a: Seq<Option<Json>>, b: Seq<Option<Json>>)
    requires
        a.len() <= 1,
    ensures
        first_reading(a + b) == (if a.len() == 1 && a[0] is Some {
            (a[0]->0)@
        } else {
            first_reading(b)
        }),
{
    if a.len() == 0 {
        assert(a + b =~= b);
    } else {
        assert((a + b)[0] == a[0]);
        assert((a + b).skip(1) =~= b);
    }
}

/// The value of a column.
pub fn decode_column(declared: &str, c: &Cell) -> (r: Json)
    ensures
        r@ == first_reading(readings(declared@, *c)),
{
    let upper = to_upper(declared);
    let u = upper.as_str();
    let is_int = contains(u, "INT");
    let is_real = contains(u, "REAL") || contains(u, "FLOA") || contains(u, "DOUB");
    let is_bool = contains(u, "BOOL");
    proof {
        let i = reading_if(is_int, c.int);
        let f = reading_if(is_real, c.real);
        let b = reading_if(is_bool, c.boolean);
        let rest = seq![c.text, c.int, c.real];
        assert(readings(declared@, *c) =~= i + (f + (b + rest)));
        lemma_first_reading(i, f + (b + rest));
        lemma_first_reading(f, b + rest);
        lemma_first_reading(b, rest);
        assert(rest.skip(1) =~= seq![c.int, c.real]);
        assert(seq![c.int, c.real].skip(1) =~= seq![c.real]);
        assert(seq![c.real].skip(1) =~= Seq::empty());
        assert(first_reading(Seq::empty()) == JsonView::Null);
        assert(first_reading(seq![c.real]) == match c.real {
            Some(v) => v@,
            None => JsonView::Null,
        });
        assert(first_reading(seq![c.int, c.real]) == match c.int {
            Some(v) => v@,
            None => first_reading(seq![c.real]),
        });
    }
    if is_int {
        if let Some(v) = &c.int {
            return v.copy();
        }
    }
    if is_real {
        if let Some(v) = &c.real {
            return v.copy();
        }
    }
    if is_bool {
        if let Some(v) = &c.boolean {
            return v.copy();
        }
    }
    if let Some(v) = &c.text {
        return v.copy();
    }
    if let Some(v) = &c.int {
        return v.copy();
    }
    if let Some(v) = &c.real {
        return v.copy();
    }
    Json::Null
}

/// A row as an object; where two columns share a name, the later one stays.
pub open spec fn row_object(names: Seq<Seq<char>>, values: Seq<JsonView>) -> Map<Seq<char>, JsonView>
    decreases names.len(),
{
    if names.len() == 0 || values.len() < names.len() {
        Map::empty()
    } else {
        row_object(names.drop_last(), values).insert(names.last(), values[names.len() - 1])
    }
}

/// A row as an object.
pub fn row_to_json(names: &Vec<String>, values: &Vec<Json>) -> (r: Json)
    requires
        names@.len() == values@.len(),
    ensures
        r@ == JsonView::Object(row_object(crate::text::texts(names@), views(values@))),
{
    let ghost all = crate::text::texts(names@);
    let ghost vals = views(values@);
    let mut m = Members::new();
    let mut i: usize = 0;
    assert(m@ =~= row_object(all.take(0), vals));
    while i < names.len()
        invariant
            i <= names@.len() == values@.len(),
            all == crate::text::texts(names@),
            vals == views(values@),
            m@ == row_object(all.take(i as int), vals),
        decreases names.len() - i,
    {
        proof {
            assert(all.take(i + 1).drop_last() =~= all.take(i as int));
            assert(all.take(i + 1).last() == names@[i as int]@);
            assert(vals[i as int] == values@[i as int]@);
        }
        m.put(names[i].as_str(), values[i].copy());
        i = i + 1;
    }
    assert(all.take(all.len() as int) =~= all);
    Json::Object(m)
}

/// What rows are handed out as: the first, `null` where there is none; or all of them.
pub open spec fn shaped(rows: Seq<JsonView>, shape: QueryReturns) -> JsonView {
    if shape == QueryReturns::One {
        if rows.len() == 0 {
            JsonView::Null
        } else {
            rows[0]
        }
    } else {
        JsonView::Array(rows)
    }
}

/// What rows are handed out as.
pub fn shape_rows(rows: Vec<Json>, shape: QueryReturns) -> (r: Json)
    ensures
        r@ == shaped(views(rows@), shape),
{
    if shape == QueryReturns::One {
        assert(views(rows@).len() == rows@.len());
        if rows.len() == 0 {
            return Json::Null;
        }
        assert(views(rows@)[0] == rows@[0]@);
        return rows[0].copy();
    }
    Json::array(rows)
}

/// What a statement that changes rows is handed out as.
pub open spec fn change(rows: u64, last_insert_id: i64) -> JsonView {
    JsonView::Object(
        Map::empty().insert("affected"@, JsonView::Number(NumberView::Int(rows as int))).insert(
            "last_insert_id"@,
            JsonView::Number(NumberView::Int(last_insert_id as int)),
        ),
    )
}

/// What a statement that changes rows is handed out as.
pub fn affected(rows: u64, last_insert_id: i64) -> (r: Json)
    ensures
        r@ == change(rows, last_insert_id),
{
    let mut m = Members::new();
    m.put("affected", Json::num(rows));
    m.put("last_insert_id", Json::Number(Number::Negative(last_insert_id)));
    Json::Object(m)
}

/// Distinguishes "the caller sent something the query cannot use" from "the
/// database is broken". Conflating them turns a malformed query string into a
/// 500, which reads as a server fault and inflates error budgets.
#[derive(Debug)]
pub enum QueryError {
    /// Caused by the request's own data: a bad type, a constraint violation.
    BadInput(String),
    /// Anything else. The detail stays in the log.
    Internal(String),
}

/// Whether a failure is the caller's fault, by the text of the error and, where the
/// database itself reported it, by what it said.
pub open spec fn callers_fault(text: Seq<char>, reported: Option<Seq<char>>) -> bool {
    ||| reported matches Some(m) && (contains_text(lowered(m), "constraint"@) || contains_text(
        lowered(m),
        "datatype mismatch"@,
    ) || contains_text(lowered(m), "not a"@) || contains_text(lowered(m), "no such column"@))
    ||| contains_text(lowered(text), "datatype mismatch"@)
    ||| contains_text(lowered(text), "constraint"@)
    ||| contains_text(lowered(text), "error occurred while decoding"@)
    ||| contains_text(lowered(text), "mismatched types"@)
}

impl QueryError {
    /// Sorts a failure, given the text of the error and, where the database itself
    /// reported it, what it said. The client is told only which side is at fault.
    pub fn from_sqlx(text: &str, reported: Option<&str>) -> (r: QueryError)
        ensures
            if callers_fault(text@, crate::provider::maybe_str(reported)) {
                r matches QueryError::BadInput(m) && m@ == "the request contained a value this query cannot use"@
            } else {
                r matches QueryError::Internal(m) && m@ == "query failed"@
            },
    {
        let low = to_lower(text);
        let t = low.as_str();
        let said = match reported {
            Some(m) => {
                let low = to_lower(m);
                let s = low.as_str();
                contains(s, "constraint") || contains(s, "datatype mismatch") || contains(s, "not a") || contains(
                    s,
                    "no such column",
                )
            },
            None => false,
        };
        let fault = said || contains(t, "datatype mismatch") || contains(t, "constraint") || contains(
            t,
            "error occurred while decoding",
        ) || contains(t, "mismatched types");
        if fault {
            QueryError::BadInput("the request contained a value this query cannot use".to_owned())
        } else {
            QueryError::Internal("query failed".to_owned())
        }
    }

    pub fn status(&self) -> (r: u16)
        ensures
            r == (if self is BadInput {
                400u16
            } else {
                500u16
            }),
    {
        match self {
            QueryError::BadInput(_) => 400,
            QueryError::Internal(_) => 500,
        }
    }

    pub fn message(&self) -> (r: &str)
        ensures
            r@ == (match self {
                QueryError::BadInput(m) => m@,
                QueryError::Internal(m) => m@,
            }),
    {
        match self {
            QueryError::BadInput(m) => m.as_str(),
            QueryError::Internal(m) => m.as_str(),
        }
    }
}

/// Whether a declared type names another, whatever the case.
pub open spec fn says_type(declared: Seq<char>, name: Seq<char>) -> bool {
    contains_text(uppered(declared), name)
}

/// A column is decoded to one of the readings that its cell has, and is lost only where
/// there is none: by the type that it was declared with, where the cell has that reading,
/// and otherwise as text, as an integer or as a real number, whichever there is.
pub proof fn law_a_cell_is_decoded_to_a_reading_that_it_has(declared: Seq<char>, c: Cell)
    ensures
        ({
            let v = first_reading(readings(declared, c));
            let fractional = says_type(declared, "REAL"@) || says_type(declared, "FLOA"@) || says_type(declared, "DOUB"@);
            &&& c.int matches Some(i) ==> (says_type(declared, "INT"@) ==> v == i@)
            &&& c.real matches Some(x) ==> (fractional && !(says_type(declared, "INT"@) && c.int is Some) ==> v == x@)
            &&& c.boolean matches Some(b) ==> (says_type(declared, "BOOL"@) && !(says_type(declared, "INT"@) && c.int
                is Some) && !(fractional && c.real is Some) ==> v == b@)
            &&& c.text matches Some(t) ==> (!says_type(declared, "INT"@) && !fractional && !says_type(declared, "BOOL"@)
                ==> v == t@)
            &&& (c.int matches Some(i) && v == i@) || (c.real matches Some(x) && v == x@) || (c.boolean matches Some(b)
                && v == b@) || (c.text matches Some(t) && v == t@) || (c.int is None && c.real is None && c.text is None
                && v == JsonView::Null)
            &&& c.int is Some && c.real is None && c.boolean is None && c.text is None ==> v == (c.int->0)@
            &&& c.int is None && c.real is Some && c.boolean is None && c.text is None ==> v == (c.real->0)@
            &&& c.int is None && c.real is None && c.boolean is None && c.text is Some ==> v == (c.text->0)@
        }),
{
    let is_int = says_type(declared, "INT"@);
    let is_real = says_type(declared, "REAL"@) || says_type(declared, "FLOA"@) || says_type(declared, "DOUB"@);
    let is_bool = says_type(declared, "BOOL"@);
    let i = reading_if(is_int, c.int);
    let f = reading_if(is_real, c.real);
    let b = reading_if(is_bool, c.boolean);
    let rest = seq![c.text, c.int, c.real];
    assert(readings(declared, c) =~= i + (f + (b + rest)));
    lemma_first_reading(i, f + (b + rest));
    lemma_first_reading(f, b + rest);
    lemma_first_reading(b, rest);
    assert(rest.skip(1) =~= seq![c.int, c.real]);
    assert(seq![c.int, c.real].skip(1) =~= seq![c.real]);
    assert(seq![c.real].skip(1) =~= Seq::empty());
    assert(first_reading(Seq::empty()) == JsonView::Null);
    assert(first_reading(seq![c.real]) == match c.real {
        Some(v) => v@,
        None => JsonView::Null,
    });
    assert(first_reading(seq![c.int, c.real]) == match c.int {
        Some(v) => v@,
        None => first_reading(seq![c.real]),
    });
}

/// A parameter is bound as the value that it is: nothing, a truth value, a number and a
/// text as themselves, and what has parts as the text that it prints as. Two numbers, two
/// truth values or two texts that differ are bound differently.
pub proof fn law_a_parameter_is_bound_as_itself(v: JsonView, w: JsonView)
    ensures
        bound(JsonView::Null) == BindingView::Null,
        v matches JsonView::Bool(b) ==> bound(v) == BindingView::Bool(b),
        v matches JsonView::Str(s) ==> bound(v) == BindingView::Text(s),
        v matches JsonView::Number(NumberView::Int(n)) ==> (i64::MIN <= n <= i64::MAX ==> bound(v) == BindingView::Int(n)),
        v matches JsonView::Number(NumberView::Real(t)) ==> bound(v) == BindingView::Real(NumberView::Real(t)),
        v is Array || v is Object ==> bound(v) == BindingView::Text(json_text(v)),
        v is Number && w is Number && bound(v) == bound(w) ==> v == w,
        v is Bool && w is Bool && bound(v) == bound(w) ==> v == w,
        v is Str && w is Str && bound(v) == bound(w) ==> v == w,
{
}

/// A row has its columns by their names, with their values, and nothing else; of two with
/// one name the later stays.
pub proof fn law_a_row_has_its_columns(names: Seq<Seq<char>>, values: Seq<JsonView>, i: int)
    requires
        names.len() <= values.len(),
        0 <= i < names.len(),
        forall|j: int| i < j < names.len() ==> #[trigger] names[j] != names[i],
    ensures
        row_object(names, values).contains_key(names[i]),
        row_object(names, values)[names[i]] == values[i],
        forall|k: Seq<char>| #[trigger] row_object(names, values).contains_key(k) ==> names.contains(k),
    decreases names.len(),
{
    lemma_row_names(names, values);
    if i < names.len() - 1 {
        let rest = names.drop_last();
        assert forall|j: int| i < j < rest.len() implies #[trigger] rest[j] != rest[i] by {
            assert(names[j] != names[i]);
        }
        law_a_row_has_its_columns(rest, values, i);
        assert(names[names.len() - 1] != names[i]);
    }
}

proof fn lemma_row_names(names: Seq<Seq<char>>, values: Seq<JsonView>)
    ensures
        forall|k: Seq<char>| #[trigger] row_object(names, values).contains_key(k) ==> names.contains(k),
    decreases names.len(),
{
    if names.len() > 0 && values.len() >= names.len() {
        let rest = names.drop_last();
        lemma_row_names(rest, values);
        assert forall|k: Seq<char>| #[trigger] row_object(names, values).contains_key(k) implies names.contains(k) by {
            if k == names.last() {
                assert(names[names.len() - 1] == k);
            } else {
                assert(row_object(rest, values).contains_key(k));
                let j = choose|j: int| 0 <= j < rest.len() && rest[j] == k;
                assert(names[j] == k);
            }
        }
    }
}

/// A query for one row hands out the first, and nothing where there is none; any other
/// hands out all rows, in order. A change says how many rows it touched, and the last id.
pub proof fn law_rows_are_handed_out_in_their_shape(rows: Seq<JsonView>, touched: u64, last: i64)
    ensures
        rows.len() > 0 ==> shaped(rows, QueryReturns::One) == rows[0],
        rows.len() == 0 ==> shaped(rows, QueryReturns::One) == JsonView::Null,
        shaped(rows, QueryReturns::Many) == JsonView::Array(rows),
        crate::json::member(change(touched, last), "affected"@) == Some(
            JsonView::Number(NumberView::Int(touched as int)),
        ),
        crate::json::member(change(touched, last), "last_insert_id"@) == Some(
            JsonView::Number(NumberView::Int(last as int)),
        ),
{
    reveal_strlit("affected");
    reveal_strlit("last_insert_id");
    assert("affected"@.len() == 8);
    assert("last_insert_id"@.len() == 14);
}

/// A value that the query cannot use is the caller's fault, whatever else is said of it and
/// in whatever case; and a failure in which nothing of the kind is said is not.
pub proof fn law_a_constraint_is_the_callers_fault(text: Seq<char>, reported: Option<Seq<char>>)
    ensures
        contains_text(lowered(text), "constraint"@) ==> callers_fault(text, reported),
        contains_text(lowered(text), "datatype mismatch"@) ==> callers_fault(text, reported),
        contains_text(lowered(text), "mismatched types"@) ==> callers_fault(text, reported),
        contains_text(lowered(text), "error occurred while decoding"@) ==> callers_fault(text, reported),
        reported matches Some(m) ==> (contains_text(lowered(m), "constraint"@) || contains_text(
            lowered(m),
            "datatype mismatch"@,
        ) || contains_text(lowered(m), "no such column"@) ==> callers_fault(text, reported)),
        callers_fault(text, None) ==> contains_text(lowered(text), "constraint"@) || contains_text(
            lowered(text),
            "datatype mismatch"@,
        ) || contains_text(lowered(text), "mismatched types"@) || contains_text(
            lowered(text),
            "error occurred while decoding"@,
        ),
{
}

} // verus!
