//! JSON values: the library's own tree, its comparison and look-up, and its
//! text through `serde_json` and `serde_yaml`.
use vstd::prelude::*;
use vstd::string::*;

use crate::text::{
    decimal, decimal_int, le_text, lemma_same_texts, lemma_text_le_antisymmetric,
    lemma_text_le_reflexive, lemma_text_le_total, lemma_text_le_transitive, same,
    strictly_ascending, text_le,
};

verus! {

/// A JSON value.
///
/// Integers are kept apart by sign. A number with a fraction or an exponent is
/// kept as the text that `serde_json` writes for it. The entries of an object
/// stand in ascending order of their keys, each key once. `wf` says so.
#[derive(Debug)]
pub enum Json {
    Null,
    Bool(bool),
    PosInt(u64),
    NegInt(i64),
    Real(String),
    Str(String),
    List(Vec<Json>),
    Dict(Vec<(String, Json)>),
}

/// What a JSON value holds. A number with a fraction or an exponent is the text
/// that `serde_json` writes for it. The entries of an object are a map: JSON gives
/// them no order, and `serde_json` writes them by ascending key.
pub enum JsonView {
    Null,
    Bool(bool),
    PosInt(u64),
    NegInt(i64),
    Real(Seq<char>),
    Str(Seq<char>),
    List(Seq<JsonView>),
    Dict(Map<Seq<char>, JsonView>),
}

/// The contents of a value.
pub open spec fn json_view(j: Json) -> JsonView
    decreases j,
{
    match j {
        Json::Null => JsonView::Null,
        Json::Bool(b) => JsonView::Bool(b),
        Json::PosInt(n) => JsonView::PosInt(n),
        Json::NegInt(n) => if n < 0 {
            JsonView::NegInt(n)
        } else {
            JsonView::PosInt(n as u64)
        },
        Json::Real(t) => if is_real_text(t@) {
            JsonView::Real(t@)
        } else {
            number_read(t@)
        },
        Json::Str(s) => JsonView::Str(s@),
        Json::List(v) => JsonView::List(list_view(v, v@.len())),
        Json::Dict(v) => JsonView::Dict(dict_view(v, v@.len())),
    }
}

/// The contents of the first `n` elements of a list.
pub open spec fn list_view(v: Vec<Json>, n: nat) -> Seq<JsonView>
    decreases v, n,
{
    if n == 0 || n > v@.len() {
        Seq::empty()
    } else {
        list_view(v, (n - 1) as nat).push(json_view(v[n - 1]))
    }
}

/// The contents of the first `n` entries of an object.
pub open spec fn dict_view(v: Vec<(String, Json)>, n: nat) -> Map<Seq<char>, JsonView>
    decreases v, n,
{
    if n == 0 || n > v@.len() {
        Map::empty()
    } else {
        dict_view(v, (n - 1) as nat).insert(v[n - 1].0@, json_view(v[n - 1].1))
    }
}

impl View for Json {
    type V = JsonView;

    open spec fn view(&self) -> JsonView {
        json_view(*self)
    }
}

/// Whether a text is the one that `serde_json` writes for some number with a
/// fraction or an exponent.
pub open spec fn is_real_text(t: Seq<char>) -> bool {
    exists|v: serde_json::Value| #[trigger] value_view(v) == JsonView::Real(t)
}

/// The keys of entries.
pub open spec fn entry_keys(entries: Seq<(String, Json)>) -> Seq<Seq<char>> {
    entries.map_values(|e: (String, Json)| e.0@)
}

/// Whether a value has the form that `Json` describes, and so have all values in
/// it.
pub open spec fn json_wf(j: Json) -> bool
    decreases j,
{
    match j {
        Json::NegInt(n) => n < 0,
        Json::Real(t) => is_real_text(t@),
        Json::List(v) => values_wf(v, v@.len()),
        Json::Dict(v) => strictly_ascending(entry_keys(v@)) && entries_wf(v, v@.len()),
        _ => true,
    }
}

/// Whether the first `n` elements of a list have their form.
pub open spec fn values_wf(v: Vec<Json>, n: nat) -> bool
    decreases v, n,
{
    if n == 0 || n > v@.len() {
        true
    } else {
        values_wf(v, (n - 1) as nat) && json_wf(v[n - 1])
    }
}

/// Whether the values of the first `n` entries of an object have their form.
pub open spec fn entries_wf(v: Vec<(String, Json)>, n: nat) -> bool
    decreases v, n,
{
    if n == 0 || n > v@.len() {
        true
    } else {
        entries_wf(v, (n - 1) as nat) && json_wf(v[n - 1].1)
    }
}

/// Whether two values are equal: alike in kind, and equal in what they hold.
/// The two zeros of a fractional number are equal.
pub open spec fn json_same(a: Json, b: Json) -> bool
    decreases a,
{
    match (a, b) {
        (Json::Null, Json::Null) => true,
        (Json::Bool(x), Json::Bool(y)) => x == y,
        (Json::PosInt(x), Json::PosInt(y)) => x == y,
        (Json::NegInt(x), Json::NegInt(y)) => x == y,
        (Json::Real(x), Json::Real(y)) => x@ == y@ || (is_zero_text(x@) && is_zero_text(y@)),
        (Json::Str(x), Json::Str(y)) => x@ == y@,
        (Json::List(x), Json::List(y)) => x@.len() == y@.len() && lists_same(x, y, x@.len()),
        (Json::Dict(x), Json::Dict(y)) => x@.len() == y@.len() && dicts_same(x, y, x@.len()),
        _ => false,
    }
}

/// Whether the first `n` elements of two lists are equal.
pub open spec fn lists_same(a: Vec<Json>, b: Vec<Json>, n: nat) -> bool
    decreases a, n,
{
    if n == 0 || n > a@.len() {
        true
    } else {
        lists_same(a, b, (n - 1) as nat) && json_same(a[n - 1], b[n - 1])
    }
}

/// Whether the first `n` entries of two objects are equal.
pub open spec fn dicts_same(a: Vec<(String, Json)>, b: Vec<(String, Json)>, n: nat) -> bool
    decreases a, n,
{
    if n == 0 || n > a@.len() {
        true
    } else {
        &&& dicts_same(a, b, (n - 1) as nat)
        &&& a[n - 1].0@ == b[n - 1].0@
        &&& json_same(a[n - 1].1, b[n - 1].1)
    }
}

/// The texts of a fractional zero.
pub open spec fn is_zero_text(t: Seq<char>) -> bool {
    t == "0.0"@ || t == "-0.0"@
}

/// Whether a list holds a value equal to `x`.
pub open spec fn json_in(list: Seq<Json>, x: Json) -> bool {
    exists|i: int| 0 <= i < list.len() && json_same(#[trigger] list[i], x)
}

/// The value of the first entry with the given key.
pub open spec fn entry_of(entries: Seq<(String, Json)>, key: Seq<char>) -> Option<Json>
    decreases entries.len(),
{
    if entries.len() == 0 {
        None
    } else if entries[0].0@ == key {
        Some(entries[0].1)
    } else {
        entry_of(entries.skip(1), key)
    }
}

/// The entry of an object with the given key; `None` where there is none, or
/// where the value is no object.
pub open spec fn member(j: Json, key: Seq<char>) -> Option<Json> {
    match j {
        Json::Dict(entries) => entry_of(entries@, key),
        _ => None,
    }
}

/// The characters of a string; `None` for any other value.
pub open spec fn string_of(j: Json) -> Option<Seq<char>> {
    match j {
        Json::Str(s) => Some(s@),
        _ => None,
    }
}

/// The characters of a string entry of an object.
pub open spec fn string_member(j: Json, key: Seq<char>) -> Option<Seq<char>> {
    match member(j, key) {
        Some(v) => string_of(v),
        None => None,
    }
}

/// The elements of an optional list; none where there is no list.
pub open spec fn items_of(j: Option<Json>) -> Seq<Json> {
    match j {
        Some(Json::List(items)) => items@,
        _ => Seq::empty(),
    }
}

/// Whether an optional value is a list.
pub open spec fn is_list(j: Option<Json>) -> bool {
    match j {
        Some(Json::List(_)) => true,
        _ => false,
    }
}

// ── serde_json and serde_yaml ────────────────────────────────────────────────

/// A value of `serde_json`. Its contents are `value_view`.
#[verifier::external_type_specification]
#[verifier::external_body]
pub struct ExValue(serde_json::Value);

/// What a value of `serde_json` holds. Of a number with a fraction or an exponent
/// it is the text that `serde_json` writes for it.
pub uninterp spec fn value_view(v: serde_json::Value) -> JsonView;

/// The number that `serde_json::from_str` reads out of a text; the text itself,
/// as a string, where it is no JSON.
pub uninterp spec fn number_read(text: Seq<char>) -> JsonView;

/// The text that `serde_json::to_string` writes for a value.
pub uninterp spec fn compact_written(v: JsonView) -> Seq<char>;

/// The text that `serde_json::to_string_pretty` writes for a value.
pub uninterp spec fn pretty_written(v: JsonView) -> Seq<char>;

/// Builds `serde_json::Value::Null`.
#[verifier::external_body]
fn value_null() -> (r: serde_json::Value)
    ensures
        value_view(r) == JsonView::Null,
{
    serde_json::Value::Null
}

/// Builds `serde_json::Value::Bool`.
#[verifier::external_body]
fn value_bool(b: bool) -> (r: serde_json::Value)
    ensures
        value_view(r) == JsonView::Bool(b),
{
    serde_json::Value::Bool(b)
}

/// Calls `serde_json::Value::from` on an unsigned integer, which keeps it as it
/// is.
#[verifier::external_body]
fn value_pos_int(n: u64) -> (r: serde_json::Value)
    ensures
        value_view(r) == JsonView::PosInt(n),
{
    serde_json::Value::from(n)
}

/// Calls `serde_json::Value::from` on a signed integer. One that is not negative
/// is kept as an unsigned one.
#[verifier::external_body]
fn value_neg_int(n: i64) -> (r: serde_json::Value)
    ensures
        n < 0 ==> value_view(r) == JsonView::NegInt(n),
        n >= 0 ==> value_view(r) == JsonView::PosInt(n as u64),
{
    serde_json::Value::from(n)
}

/// Calls `serde_json::from_str` on the text of a number. With the feature
/// `float_roundtrip`, a text that `serde_json` wrote for a number with a fraction or
/// an exponent is read as that very number.
#[verifier::external_body]
fn value_real(text: &str) -> (r: serde_json::Value)
    ensures
        value_view(r) == number_read(text@),
        is_real_text(text@) ==> value_view(r) == JsonView::Real(text@),
{
    serde_json::from_str(text).unwrap_or_else(|_| serde_json::Value::String(text.to_string()))
}

/// Builds `serde_json::Value::String`.
#[verifier::external_body]
pub(crate) fn value_str(s: &str) -> (r: serde_json::Value)
    ensures
        value_view(r) == JsonView::Str(s@),
{
    serde_json::Value::String(s.to_string())
}

/// Builds `serde_json::Value::Array` of the given elements.
#[verifier::external_body]
fn value_list(items: Vec<serde_json::Value>) -> (r: serde_json::Value)
    ensures
        value_view(r) == JsonView::List(items@.map_values(|v: serde_json::Value| value_view(v))),
{
    serde_json::Value::Array(items)
}

/// The map of the first `n` pairs, where a later pair replaces an earlier one of
/// the same key.
pub open spec fn collected(
    pairs: Seq<(String, serde_json::Value)>,
    n: nat,
) -> Map<Seq<char>, JsonView>
    decreases n,
{
    if n == 0 || n > pairs.len() {
        Map::empty()
    } else {
        collected(pairs, (n - 1) as nat).insert(pairs[n - 1].0@, value_view(pairs[n - 1].1))
    }
}

/// Builds `serde_json::Value::Object` of the given pairs, through the map that
/// `serde_json` collects them into.
#[verifier::external_body]
fn value_dict(pairs: Vec<(String, serde_json::Value)>) -> (r: serde_json::Value)
    ensures
        value_view(r) == JsonView::Dict(collected(pairs@, pairs@.len())),
{
    serde_json::Value::Object(pairs.into_iter().collect())
}

/// Calls `serde_json::to_string`, which succeeds on every value. Besides the name
/// of its result: null, the booleans and the integers are written as such, and a
/// number with a fraction or an exponent by its text.
#[verifier::external_body]
fn write_compact(v: &serde_json::Value) -> (r: String)
    ensures
        r@ == compact_written(value_view(*v)),
        value_view(*v) == JsonView::Null ==> r@ == "null"@,
        value_view(*v) == JsonView::Bool(true) ==> r@ == "true"@,
        value_view(*v) == JsonView::Bool(false) ==> r@ == "false"@,
        forall|n: u64| value_view(*v) == JsonView::PosInt(n) ==> r@ == #[trigger] decimal(n as nat),
        forall|n: i64|
            value_view(*v) == JsonView::NegInt(n) ==> r@ == #[trigger] decimal_int(n as int),
        value_view(*v) matches JsonView::Real(t) ==> r@ == t,
{
    serde_json::to_string(v).unwrap_or_default()
}

/// Calls `serde_json::to_string_pretty`, which succeeds on every value.
#[verifier::external_body]
fn write_pretty(v: &serde_json::Value) -> (r: String)
    ensures
        r@ == pretty_written(value_view(*v)),
{
    serde_json::to_string_pretty(v).unwrap_or_default()
}

/// The value of `serde_json` with the same contents.
#[verifier::loop_isolation(false)]
pub fn to_value(j: &Json) -> (r: serde_json::Value)
    ensures
        value_view(r) == j@,
    decreases j,
{
    match j {
        Json::Null => value_null(),
        Json::Bool(b) => value_bool(*b),
        Json::PosInt(n) => value_pos_int(*n),
        Json::NegInt(n) => value_neg_int(*n),
        Json::Real(t) => value_real(t.as_str()),
        Json::Str(s) => value_str(s.as_str()),
        Json::List(v) => {
            let n: usize = v.len();
            let mut items: Vec<serde_json::Value> = Vec::new();
            let mut i: usize = 0;
            while i < n
                invariant
                    i <= n,
                    n == v@.len(),
                    *j == Json::List(*v),
                    items@.map_values(|x: serde_json::Value| value_view(x)) == list_view(*v, i as nat),
                decreases n - i,
            {
                let item = to_value(&v[i]);
                let ghost before = items@;
                items.push(item);
                proof {
                    assert(items@.map_values(|x: serde_json::Value| value_view(x))
                        == before.map_values(|x: serde_json::Value| value_view(x)).push(
                        value_view(item),
                    ));
                }
                i = i + 1;
            }
            value_list(items)
        },
        Json::Dict(v) => {
            let n: usize = v.len();
            let mut pairs: Vec<(String, serde_json::Value)> = Vec::new();
            let mut i: usize = 0;
            while i < n
                invariant
                    i <= n,
                    n == v@.len(),
                    *j == Json::Dict(*v),
                    pairs@.len() == i,
                    collected(pairs@, i as nat) == dict_view(*v, i as nat),
                decreases n - i,
            {
                let item = to_value(&v[i].1);
                let ghost before = pairs@;
                pairs.push((v[i].0.clone(), item));
                proof {
                    lemma_collected_prefix(before, pairs@, i as nat);
                }
                i = i + 1;
            }
            value_dict(pairs)
        },
    }
}

/// What the first pairs collect to does not depend on the pairs behind them.
proof fn lemma_collected_prefix(
    a: Seq<(String, serde_json::Value)>,
    b: Seq<(String, serde_json::Value)>,
    n: nat,
)
    requires
        n <= a.len(),
        n <= b.len(),
        forall|k: int| 0 <= k < n ==> a[k] == b[k],
    ensures
        collected(a, n) == collected(b, n),
    decreases n,
{
    if n > 0 {
        lemma_collected_prefix(a, b, (n - 1) as nat);
    }
}

// ── Comparison and look-up ───────────────────────────────────────────────────

/// Whether two values are equal.
#[verifier::loop_isolation(false)]
pub fn same_json(a: &Json, b: &Json) -> (r: bool)
    ensures
        r == json_same(*a, *b),
    decreases a,
{
    match (a, b) {
        (Json::Null, Json::Null) => true,
        (Json::Bool(x), Json::Bool(y)) => *x == *y,
        (Json::PosInt(x), Json::PosInt(y)) => *x == *y,
        (Json::NegInt(x), Json::NegInt(y)) => *x == *y,
        (Json::Real(x), Json::Real(y)) => {
            same(x.as_str(), y.as_str()) || (zero_text(x.as_str()) && zero_text(y.as_str()))
        },
        (Json::Str(x), Json::Str(y)) => same(x.as_str(), y.as_str()),
        (Json::List(x), Json::List(y)) => {
            if x.len() != y.len() {
                return false;
            }
            let n: usize = x.len();
            let mut alike = true;
            let mut i: usize = 0;
            while i < n
                invariant
                    i <= n,
                    n == x@.len() == y@.len(),
                    *a == Json::List(*x),
                    alike == lists_same(*x, *y, i as nat),
                decreases n - i,
            {
                let here = same_json(&x[i], &y[i]);
                alike = alike && here;
                i = i + 1;
            }
            alike
        },
        (Json::Dict(x), Json::Dict(y)) => {
            if x.len() != y.len() {
                return false;
            }
            let n: usize = x.len();
            let mut alike = true;
            let mut i: usize = 0;
            while i < n
                invariant
                    i <= n,
                    n == x@.len() == y@.len(),
                    *a == Json::Dict(*x),
                    alike == dicts_same(*x, *y, i as nat),
                decreases n - i,
            {
                let keys = same(x[i].0.as_str(), y[i].0.as_str());
                let here = same_json(&x[i].1, &y[i].1);
                alike = alike && keys && here;
                i = i + 1;
            }
            alike
        },
        _ => false,
    }
}

/// Whether a text is that of a fractional zero.
fn zero_text(t: &str) -> (r: bool)
    ensures
        r == is_zero_text(t@),
{
    same(t, "0.0") || same(t, "-0.0")
}

/// Whether a list holds a value equal to `x`.
pub fn has_json(list: &[Json], x: &Json) -> (r: bool)
    ensures
        r == json_in(list@, *x),
{
    let n: usize = list.len();
    let mut i: usize = 0;
    while i < n
        invariant
            i <= n,
            n == list@.len(),
            forall|k: int| 0 <= k < i ==> !json_same(#[trigger] list@[k], *x),
        decreases n - i,
    {
        if same_json(&list[i], x) {
            return true;
        }
        i = i + 1;
    }
    false
}

impl Json {
    /// Whether the value has the form that the type describes.
    pub open spec fn wf(self) -> bool {
        json_wf(self)
    }

    /// The entry of an object with the given key.
    pub fn get(&self, key: &str) -> (r: Option<&Json>)
        ensures
            r == (match member(*self, key@) {
                Some(v) => Some(&v),
                None => None,
            }),
    {
        match self {
            Json::Dict(entries) => {
                let n: usize = entries.len();
                let mut i: usize = 0;
                assert(entries@.skip(0) == entries@);
                while i < n
                    invariant
                        i <= n,
                        n == entries@.len(),
                        *self == Json::Dict(*entries),
                        entry_of(entries@, key@) == entry_of(entries@.skip(i as int), key@),
                    decreases n - i,
                {
                    assert(entries@.skip(i as int)[0] == entries@[i as int]);
                    assert(entries@.skip(i as int).skip(1) == entries@.skip(i + 1));
                    if same(entries[i].0.as_str(), key) {
                        return Some(&entries[i].1);
                    }
                    i = i + 1;
                }
                None
            },
            _ => None,
        }
    }

    /// The string that a value is.
    pub fn as_str(&self) -> (r: Option<&str>)
        ensures
            match r {
                Some(s) => string_of(*self) == Some(s@),
                None => string_of(*self) is None,
            },
    {
        match self {
            Json::Str(s) => Some(s.as_str()),
            _ => None,
        }
    }

    /// The unsigned integer that a value is.
    pub fn as_u64(&self) -> (r: Option<u64>)
        ensures
            r == (match *self {
                Json::PosInt(n) => Some(n),
                _ => None,
            }),
    {
        match self {
            Json::PosInt(n) => Some(*n),
            _ => None,
        }
    }

    /// The string entry of an object with the given key.
    pub fn get_str(&self, key: &str) -> (r: Option<&str>)
        ensures
            match r {
                Some(s) => string_member(*self, key@) == Some(s@),
                None => string_member(*self, key@) is None,
            },
    {
        match self.get(key) {
            Some(v) => v.as_str(),
            None => None,
        }
    }
}

/// The elements of an optional list.
pub fn items(j: &Option<Json>) -> (r: &[Json])
    ensures
        r@ == items_of(*j),
{
    match j {
        Some(Json::List(v)) => v.as_slice(),
        _ => &[],
    }
}

/// Whether an optional value is a list.
pub fn holds_list(j: &Option<Json>) -> (r: bool)
    ensures
        r == is_list(*j),
{
    match j {
        Some(Json::List(_)) => true,
        _ => false,
    }
}

// ── Text ─────────────────────────────────────────────────────────────────────

/// The text of a value on one line.
pub open spec fn compact(j: Json) -> Seq<char> {
    match j {
        Json::Null => "null"@,
        Json::Bool(true) => "true"@,
        Json::Bool(false) => "false"@,
        Json::PosInt(n) => decimal(n as nat),
        Json::NegInt(n) => decimal_int(n as int),
        Json::Real(t) if is_real_text(t@) => t@,
        _ => compact_written(j@),
    }
}

/// The text of an optional value on one line; that of null where there is none.
pub open spec fn opt_compact(j: Option<Json>) -> Seq<char> {
    match j {
        Some(v) => compact(v),
        None => "null"@,
    }
}

/// The text of a value on one line, as `serde_json` writes it.
pub fn json_compact(j: &Json) -> (r: String)
    ensures
        r@ == compact(*j),
        r@ == compact_written(j@),
{
    let v = to_value(j);
    write_compact(&v)
}

/// The text of an optional value on one line.
pub fn opt_json_compact(j: &Option<Json>) -> (r: String)
    ensures
        r@ == opt_compact(*j),
{
    match j {
        Some(v) => json_compact(v),
        None => "null".to_owned(),
    }
}

/// The text of an optional value on one line; nothing where there is none.
pub open spec fn compact_or_nothing(j: Option<Json>) -> Seq<char> {
    match j {
        Some(v) => compact(v),
        None => Seq::empty(),
    }
}

/// The text of an optional value on one line; nothing where there is none.
pub fn json_or_nothing(j: &Option<Json>) -> (r: String)
    ensures
        r@ == compact_or_nothing(*j),
{
    match j {
        Some(v) => json_compact(v),
        None => String::new(),
    }
}

/// The text of a value over several lines, as `serde_json` writes it.
pub fn json_pretty(j: &Json) -> (r: String)
    ensures
        r@ == pretty_written(j@),
{
    let v = to_value(j);
    write_pretty(&v)
}

// ── Building ─────────────────────────────────────────────────────────────────

/// What a list of entries holds as an object.
pub open spec fn dict_of(v: Vec<(String, Json)>) -> Map<Seq<char>, JsonView> {
    dict_view(v, v@.len())
}

/// What a list of values holds.
pub open spec fn list_of(v: Vec<Json>) -> Seq<JsonView> {
    list_view(v, v@.len())
}

/// An object with one more entry, where there is a value for it.
pub open spec fn with_opt(
    dict: Map<Seq<char>, JsonView>,
    key: Seq<char>,
    value: Option<JsonView>,
) -> Map<Seq<char>, JsonView> {
    match value {
        Some(v) => dict.insert(key, v),
        None => dict,
    }
}

/// A signed integer as a value.
pub open spec fn int_view(n: i64) -> JsonView {
    if n < 0 {
        JsonView::NegInt(n)
    } else {
        JsonView::PosInt(n as u64)
    }
}

/// Strings as a list.
pub open spec fn strings_view(v: Seq<String>) -> JsonView {
    JsonView::List(v.map_values(|s: String| JsonView::Str(s@)))
}

/// What an object holds: its keys, and under each key the value of that entry.
proof fn lemma_dict_view(v: Vec<(String, Json)>, n: nat)
    requires
        n <= v@.len(),
        strictly_ascending(entry_keys(v@)),
    ensures
        forall|k: Seq<char>| #[trigger]
            dict_view(v, n).contains_key(k) <==> entry_keys(v@).take(n as int).contains(k),
        forall|i: int|
            0 <= i < n ==> dict_view(v, n)[(#[trigger] v@[i]).0@] == json_view(v@[i].1),
    decreases n,
{
    let keys = entry_keys(v@);
    if n > 0 {
        lemma_dict_view(v, (n - 1) as nat);
        let before = keys.take(n - 1);
        let last = v@[n - 1].0@;
        assert(keys.take(n as int) == before.push(last));
        assert forall|k: Seq<char>| #[trigger] dict_view(v, n).contains_key(k) <==> keys.take(
            n as int,
        ).contains(k) by {
            if before.contains(k) {
                assert(before.push(last)[before.index_of(k)] == k);
            }
            if k == last {
                assert(before.push(last)[n - 1] == k);
            }
            if before.push(last).contains(k) && k != last {
                let i = before.push(last).index_of(k);
                assert(before[i] == k);
            }
        }
        assert forall|i: int| 0 <= i < n implies dict_view(v, n)[(#[trigger] v@[i]).0@]
            == json_view(v@[i].1) by {
            assert(keys[i] == v@[i].0@);
            assert(keys[n - 1] == last);
        }
    } else {
        assert(keys.take(0).len() == 0);
    }
}

/// Whether entries `b` are the entries `a` with one of the given key and value at
/// `at`: in place of the one there, or ahead of it.
spec fn is_put(
    a: Seq<(String, Json)>,
    b: Seq<(String, Json)>,
    at: int,
    entry: (String, Json),
    replaces: bool,
) -> bool {
    &&& 0 <= at <= a.len()
    &&& if replaces {
        at < a.len() && a[at].0@ == entry.0@ && b == a.update(at, entry)
    } else {
        b == a.insert(at, entry)
    }
}

/// An entry that is put in at its place keeps the keys in their order, and what
/// the object holds otherwise.
proof fn lemma_put(
    a: Vec<(String, Json)>,
    b: Vec<(String, Json)>,
    at: int,
    entry: (String, Json),
    replaces: bool,
)
    requires
        strictly_ascending(entry_keys(a@)),
        is_put(a@, b@, at, entry, replaces),
        forall|k: int| 0 <= k < at ==> !text_le(entry.0@, #[trigger] entry_keys(a@)[k]),
        at < a@.len() ==> text_le(entry.0@, a@[at].0@),
        !replaces && at < a@.len() ==> entry.0@ != a@[at].0@,
    ensures
        strictly_ascending(entry_keys(b@)),
        dict_of(b) == dict_of(a).insert(entry.0@, entry.1@),
{
    let old_keys = entry_keys(a@);
    let keys = entry_keys(b@);
    let key = entry.0@;
    let shift: int = if replaces {
        0
    } else {
        1
    };
    assert(keys[at] == key);
    assert forall|k: int| 0 <= k < old_keys.len() && k != at implies keys[if k < at {
        k
    } else {
        k + shift
    }] == #[trigger] old_keys[k] by {}
    assert forall|k: int| 0 <= k < at implies text_le(#[trigger] old_keys[k], key) && old_keys[k]
        != key by {
        lemma_text_le_total(old_keys[k], key);
        lemma_text_le_reflexive(key);
    }
    assert forall|k: int| at < k < old_keys.len() implies text_le(key, #[trigger] old_keys[k])
        && old_keys[k] != key by {
        assert(text_le(old_keys[at], old_keys[k]));
        lemma_text_le_transitive(key, old_keys[at], old_keys[k]);
        if old_keys[k] == key {
            lemma_text_le_antisymmetric(old_keys[at], old_keys[k]);
        }
    }
    assert forall|i: int, j: int| 0 <= i < j < keys.len() implies text_le(
        #[trigger] keys[i],
        #[trigger] keys[j],
    ) && keys[i] != keys[j] by {
        let x = if i <= at {
            i
        } else {
            i - shift
        };
        let y = if j <= at {
            j
        } else {
            j - shift
        };
        if i == at {
            assert(keys[j] == old_keys[y]);
        } else if j == at {
            assert(keys[i] == old_keys[x]);
        } else {
            assert(keys[i] == old_keys[x]);
            assert(keys[j] == old_keys[y]);
        }
    }
    lemma_dict_view(a, a@.len());
    lemma_dict_view(b, b@.len());
    assert(old_keys.take(a@.len() as int) == old_keys);
    assert(keys.take(b@.len() as int) == keys);
    let before = dict_of(a);
    let after = dict_of(b);
    let wanted = before.insert(key, entry.1@);
    assert(b@[at] == entry);
    assert(after[key] == entry.1@);
    assert(keys.contains(key));
    assert forall|k: Seq<char>| #[trigger] after.contains_key(k) implies wanted.contains_key(k)
        && after[k] == wanted[k] by {
        if k != key {
            let i = keys.index_of(k);
            let x = if i <= at {
                i
            } else {
                i - shift
            };
            assert(b@[i] == a@[x]);
            assert(old_keys[x] == k);
            assert(old_keys.contains(k));
            assert(after[b@[i].0@] == json_view(b@[i].1));
            assert(before[a@[x].0@] == json_view(a@[x].1));
        }
    }
    assert forall|k: Seq<char>| #[trigger] wanted.contains_key(k) implies after.contains_key(k) by {
        if k != key {
            let x = old_keys.index_of(k);
            let i = if x < at {
                x
            } else {
                x + shift
            };
            assert(keys[i] == k);
        }
    }
    assert(after.dom() =~= wanted.dom());
    assert(after =~= wanted);
}

/// The values of entries have their form where each one has.
proof fn lemma_entries_wf(v: Vec<(String, Json)>, n: nat)
    requires
        n <= v@.len(),
    ensures
        entries_wf(v, n) <==> forall|i: int| 0 <= i < n ==> json_wf((#[trigger] v@[i]).1),
    decreases n,
{
    if n > 0 {
        lemma_entries_wf(v, (n - 1) as nat);
        assert(v@[n - 1] == v[n - 1]);
    }
}

/// The elements of a list have their form where each one has.
proof fn lemma_values_wf(v: Vec<Json>, n: nat)
    requires
        n <= v@.len(),
    ensures
        values_wf(v, n) <==> forall|i: int| 0 <= i < n ==> json_wf(#[trigger] v@[i]),
    decreases n,
{
    if n > 0 {
        lemma_values_wf(v, (n - 1) as nat);
        assert(v@[n - 1] == v[n - 1]);
    }
}

/// The first values hold the same whatever stands behind them.
proof fn lemma_list_prefix(a: Vec<Json>, b: Vec<Json>, n: nat)
    requires
        n <= a@.len(),
        n <= b@.len(),
        forall|k: int| 0 <= k < n ==> a@[k] == b@[k],
    ensures
        list_view(a, n) == list_view(b, n),
    decreases n,
{
    if n > 0 {
        lemma_list_prefix(a, b, (n - 1) as nat);
        assert(a@[n - 1] == b@[n - 1]);
    }
}

/// An object without entries.
pub fn new_dict() -> (r: Vec<(String, Json)>)
    ensures
        dict_of(r) == Map::<Seq<char>, JsonView>::empty(),
        Json::Dict(r).wf(),
{
    Vec::new()
}

/// A list without values.
pub fn new_list() -> (r: Vec<Json>)
    ensures
        list_of(r) == Seq::<JsonView>::empty(),
        Json::List(r).wf(),
{
    Vec::new()
}

/// Puts an entry into an object, at the place of its key. It replaces one of the
/// same key.
pub fn put_entry(dict: &mut Vec<(String, Json)>, key: &str, value: Json)
    requires
        strictly_ascending(entry_keys(old(dict)@)),
    ensures
        dict_of(*final(dict)) == dict_of(*old(dict)).insert(key@, value@),
        strictly_ascending(entry_keys(final(dict)@)),
        Json::Dict(*old(dict)).wf() && value.wf() ==> Json::Dict(*final(dict)).wf(),
{
    let ghost before = *dict;
    let n: usize = dict.len();
    let mut at: usize = 0;
    while at < n && !le_text(key, dict[at].0.as_str())
        invariant
            at <= n,
            n == dict@.len(),
            *dict == before,
            forall|k: int| 0 <= k < at ==> !text_le(key@, #[trigger] entry_keys(before@)[k]),
        decreases n - at,
    {
        at = at + 1;
    }
    let replaces = at < n && same(key, dict[at].0.as_str());
    if replaces {
        dict.remove(at);
    }
    let entry = (key.to_owned(), value);
    dict.insert(at, entry);
    proof {
        if replaces {
            assert(dict@ == before@.update(at as int, entry));
        }
        lemma_put(before, *dict, at as int, entry, replaces);
        lemma_entries_wf(before, before@.len());
        lemma_entries_wf(*dict, dict@.len());
        if Json::Dict(before).wf() && value.wf() {
            assert forall|i: int| 0 <= i < dict@.len() implies json_wf((#[trigger] dict@[i]).1) by {
                if i < at {
                    assert(dict@[i] == before@[i]);
                } else if i > at {
                    assert(dict@[i] == before@[if replaces {
                        i
                    } else {
                        i - 1
                    }]);
                }
            }
        }
    }
}

/// Puts a value into a list, behind the others.
pub fn push_json(list: &mut Vec<Json>, value: Json)
    ensures
        list_of(*final(list)) == list_of(*old(list)).push(value@),
        Json::List(*old(list)).wf() && value.wf() ==> Json::List(*final(list)).wf(),
{
    let ghost before = *list;
    list.push(value);
    proof {
        lemma_list_prefix(before, *list, before@.len());
        lemma_values_wf(before, before@.len());
        lemma_values_wf(*list, list@.len());
        if Json::List(before).wf() && value.wf() {
            assert forall|i: int| 0 <= i < list@.len() implies json_wf(#[trigger] list@[i]) by {
                if i < before@.len() {
                    assert(list@[i] == before@[i]);
                }
            }
        }
    }
}

/// A text as a value.
pub fn str_json(s: &str) -> (r: Json)
    ensures
        r@ == JsonView::Str(s@),
        r.wf(),
{
    Json::Str(s.to_owned())
}

/// A signed integer as a value.
pub fn int_json(n: i64) -> (r: Json)
    ensures
        r@ == int_view(n),
        r.wf(),
{
    if n < 0 {
        Json::NegInt(n)
    } else {
        Json::PosInt(n as u64)
    }
}

/// Strings as a list.
pub fn strings_json(v: &Vec<String>) -> (r: Json)
    ensures
        r@ == strings_view(v@),
        r.wf(),
{
    let mut list = new_list();
    let n: usize = v.len();
    let mut i: usize = 0;
    let ghost model = v@.map_values(|s: String| JsonView::Str(s@));
    assert(list_of(list) == model.take(0));
    while i < n
        invariant
            i <= n,
            n == v@.len(),
            model == v@.map_values(|s: String| JsonView::Str(s@)),
            list_of(list) == model.take(i as int),
            Json::List(list).wf(),
        decreases n - i,
    {
        push_json(&mut list, str_json(v[i].as_str()));
        assert(model.take(i + 1) == model.take(i as int).push(model[i as int]));
        i = i + 1;
    }
    assert(model.take(n as int) == model);
    Json::List(list)
}

// ── Laws ─────────────────────────────────────────────────────────────────────

/// Every value is equal to itself.
pub proof fn equal_to_itself(j: Json)
    ensures
        json_same(j, j),
    decreases j,
{
    match j {
        Json::List(v) => lemma_list_itself(v, v@.len()),
        Json::Dict(v) => lemma_dict_itself(v, v@.len()),
        _ => {},
    }
}

/// Every list is equal to itself.
proof fn lemma_list_itself(v: Vec<Json>, n: nat)
    requires
        n <= v@.len(),
    ensures
        lists_same(v, v, n),
    decreases v, n,
{
    if n > 0 {
        lemma_list_itself(v, (n - 1) as nat);
        equal_to_itself(v[n - 1]);
    }
}

/// Every object is equal to itself.
proof fn lemma_dict_itself(v: Vec<(String, Json)>, n: nat)
    requires
        n <= v@.len(),
    ensures
        dicts_same(v, v, n),
    decreases v, n,
{
    if n > 0 {
        lemma_dict_itself(v, (n - 1) as nat);
        equal_to_itself(v[n - 1].1);
    }
}

/// The entry that is looked up is one of those with the key, and none is found
/// only where there is none.
proof fn lemma_entry_of(entries: Seq<(String, Json)>, key: Seq<char>)
    ensures
        match entry_of(entries, key) {
            Some(value) => exists|i: int|
                0 <= i < entries.len() && (#[trigger] entries[i]).0@ == key && entries[i].1
                    == value,
            None => forall|i: int| 0 <= i < entries.len() ==> (#[trigger] entries[i]).0@ != key,
        },
    decreases entries.len(),
{
    if entries.len() > 0 && entries[0].0@ != key {
        let rest = entries.skip(1);
        lemma_entry_of(rest, key);
        match entry_of(rest, key) {
            Some(value) => {
                let i = choose|i: int|
                    0 <= i < rest.len() && (#[trigger] rest[i]).0@ == key && rest[i].1 == value;
                assert(entries[i + 1] == rest[i]);
            },
            None => {
                assert forall|i: int| 0 <= i < entries.len() implies (#[trigger] entries[i]).0@
                    != key by {
                    if i > 0 {
                        assert(rest[i - 1] == entries[i]);
                    }
                }
            },
        }
    }
}

/// Looking up a key gives what the object holds under it, and nothing exactly
/// where the object does not have the key.
pub proof fn look_up_reads_contents(entries: Vec<(String, Json)>, key: Seq<char>)
    requires
        Json::Dict(entries).wf(),
    ensures
        match entry_of(entries@, key) {
            Some(value) => dict_of(entries).contains_key(key) && dict_of(entries)[key] == value@,
            None => !dict_of(entries).contains_key(key),
        },
{
    let keys = entry_keys(entries@);
    lemma_entry_of(entries@, key);
    lemma_dict_view(entries, entries@.len());
    assert(keys.take(entries@.len() as int) == keys);
    match entry_of(entries@, key) {
        Some(value) => {
            let i = choose|i: int|
                0 <= i < entries@.len() && (#[trigger] entries@[i]).0@ == key && entries@[i].1
                    == value;
            assert(keys[i] == key);
        },
        None => {
            if keys.contains(key) {
                assert(entries@[keys.index_of(key)].0@ == key);
            }
        },
    }
}

/// Whether a value holds a fractional zero with a sign, or is one.
pub open spec fn has_signed_zero(j: Json) -> bool
    decreases j,
{
    match j {
        Json::Real(t) => t@ == "-0.0"@,
        Json::List(v) => list_has_signed_zero(v, v@.len()),
        Json::Dict(v) => dict_has_signed_zero(v, v@.len()),
        _ => false,
    }
}

/// Whether one of the first `n` elements of a list holds a fractional zero with a
/// sign.
pub open spec fn list_has_signed_zero(v: Vec<Json>, n: nat) -> bool
    decreases v, n,
{
    if n == 0 || n > v@.len() {
        false
    } else {
        list_has_signed_zero(v, (n - 1) as nat) || has_signed_zero(v[n - 1])
    }
}

/// Whether the value of one of the first `n` entries of an object holds a
/// fractional zero with a sign.
pub open spec fn dict_has_signed_zero(v: Vec<(String, Json)>, n: nat) -> bool
    decreases v, n,
{
    if n == 0 || n > v@.len() {
        false
    } else {
        dict_has_signed_zero(v, (n - 1) as nat) || has_signed_zero(v[n - 1].1)
    }
}

/// Values that hold the same are equal, and equal values hold the same but for the
/// sign of a fractional zero.
pub proof fn equality_is_of_contents(a: Json, b: Json)
    requires
        a.wf(),
        b.wf(),
    ensures
        a@ == b@ ==> json_same(a, b),
        json_same(a, b) && !has_signed_zero(a) && !has_signed_zero(b) ==> a@ == b@,
    decreases a,
{
    match (a, b) {
        (Json::List(x), Json::List(y)) => {
            lemma_list_len(x, x@.len());
            lemma_list_len(y, y@.len());
            if x@.len() == y@.len() {
                lemma_lists_equal(x, y, x@.len());
            }
        },
        (Json::Dict(x), Json::Dict(y)) => {
            if a@ == b@ {
                lemma_keys_equal(x, y);
                lemma_dict_from_contents(x, y, x@.len());
            }
            if x@.len() == y@.len() {
                lemma_dict_to_contents(x, y, x@.len());
            }
        },
        _ => {},
    }
}

/// The contents of a list have its length.
proof fn lemma_list_len(v: Vec<Json>, n: nat)
    requires
        n <= v@.len(),
    ensures
        list_view(v, n).len() == n,
    decreases n,
{
    if n > 0 {
        lemma_list_len(v, (n - 1) as nat);
    }
}

/// The first elements of two lists are equal where they hold the same, and the
/// other way round but for signed zeros.
proof fn lemma_lists_equal(x: Vec<Json>, y: Vec<Json>, n: nat)
    requires
        n <= x@.len(),
        n <= y@.len(),
        values_wf(x, n),
        values_wf(y, n),
    ensures
        list_view(x, n) == list_view(y, n) ==> lists_same(x, y, n),
        lists_same(x, y, n) && !list_has_signed_zero(x, n) && !list_has_signed_zero(y, n)
            ==> list_view(x, n) == list_view(y, n),
    decreases x, n,
{
    if n > 0 {
        lemma_lists_equal(x, y, (n - 1) as nat);
        equality_is_of_contents(x[n - 1], y[n - 1]);
        let front_x = list_view(x, (n - 1) as nat);
        let front_y = list_view(y, (n - 1) as nat);
        assert(list_view(x, n).drop_last() == front_x);
        assert(list_view(y, n).drop_last() == front_y);
        assert(list_view(x, n).last() == json_view(x[n - 1]));
        assert(list_view(y, n).last() == json_view(y[n - 1]));
    }
}

/// Objects that hold the same have the same keys, in the same order.
proof fn lemma_keys_equal(x: Vec<(String, Json)>, y: Vec<(String, Json)>)
    requires
        strictly_ascending(entry_keys(x@)),
        strictly_ascending(entry_keys(y@)),
        dict_of(x) == dict_of(y),
    ensures
        entry_keys(x@) == entry_keys(y@),
        x@.len() == y@.len(),
        forall|i: int|
            0 <= i < x@.len() ==> (#[trigger] x@[i]).0@ == y@[i].0@ && x@[i].1@ == y@[i].1@,
{
    let a = entry_keys(x@);
    let b = entry_keys(y@);
    lemma_dict_view(x, x@.len());
    lemma_dict_view(y, y@.len());
    assert(a.take(x@.len() as int) == a);
    assert(b.take(y@.len() as int) == b);
    assert forall|t: Seq<char>| #[trigger] a.contains(t) <==> b.contains(t) by {
        assert(dict_view(x, x@.len()).contains_key(t) <==> a.contains(t));
        assert(dict_view(y, y@.len()).contains_key(t) <==> b.contains(t));
    }
    lemma_same_texts(a, b);
    assert forall|i: int| 0 <= i < x@.len() implies (#[trigger] x@[i]).0@ == y@[i].0@ && x@[i].1@
        == y@[i].1@ by {
        assert(a[i] == b[i]);
        assert(dict_of(x)[x@[i].0@] == dict_of(y)[y@[i].0@]);
    }
}

/// The first entries of two objects are equal where their keys are the same and
/// their values hold the same.
proof fn lemma_dict_from_contents(x: Vec<(String, Json)>, y: Vec<(String, Json)>, n: nat)
    requires
        n <= x@.len(),
        n <= y@.len(),
        entries_wf(x, n),
        entries_wf(y, n),
        forall|i: int| 0 <= i < n ==> (#[trigger] x@[i]).0@ == y@[i].0@ && x@[i].1@ == y@[i].1@,
    ensures
        dicts_same(x, y, n),
    decreases x, n,
{
    if n > 0 {
        lemma_dict_from_contents(x, y, (n - 1) as nat);
        assert(x@[n - 1].0@ == y@[n - 1].0@);
        equality_is_of_contents(x[n - 1].1, y[n - 1].1);
    }
}

/// Equal entries hold the same but for signed zeros.
proof fn lemma_dict_to_contents(x: Vec<(String, Json)>, y: Vec<(String, Json)>, n: nat)
    requires
        n <= x@.len(),
        n <= y@.len(),
        entries_wf(x, n),
        entries_wf(y, n),
    ensures
        dicts_same(x, y, n) && !dict_has_signed_zero(x, n) && !dict_has_signed_zero(y, n)
            ==> dict_view(x, n) == dict_view(y, n),
    decreases x, n,
{
    if n > 0 {
        lemma_dict_to_contents(x, y, (n - 1) as nat);
        equality_is_of_contents(x[n - 1].1, y[n - 1].1);
    }
}

/// Null, truth values, integers and fractions are written as such.
pub proof fn scalars_are_written_plainly(n: u64, m: i64, t: String)
    ensures
        compact(Json::Null) == "null"@,
        compact(Json::Bool(true)) == "true"@,
        compact(Json::Bool(false)) == "false"@,
        compact(Json::PosInt(n)) == decimal(n as nat),
        compact(Json::NegInt(m)) == decimal_int(m as int),
        Json::Real(t).wf() ==> compact(Json::Real(t)) == t@,
{
}

/// The string entry of an object is its entry under the key, where that is a string;
/// the elements of an optional list are those of the list, where there is one.
pub proof fn members_are_read(j: Json, key: Seq<char>, list: Vec<Json>)
    ensures
        member(j, key) matches Some(Json::Str(s)) ==> string_member(j, key) == Some(s@),
        !(member(j, key) matches Some(Json::Str(_))) ==> string_member(j, key) is None,
        !(j is Dict) ==> member(j, key) is None,
        items_of(Some(Json::List(list))) == list@,
        items_of(None).len() == 0,
        is_list(Some(Json::List(list))),
        !is_list(None),
        !(j is List) ==> items_of(Some(j)).len() == 0 && !is_list(Some(j)),
{
}

/// What a value holds: a truth value, an integer or a string as it is, a list what each
/// of its elements holds, in their order.
pub proof fn contents_are_kept(b: bool, n: u64, m: i64, s: String, t: String, list: Vec<Json>)
    ensures
        Json::Null@ == JsonView::Null,
        Json::Bool(b)@ == JsonView::Bool(b),
        Json::PosInt(n)@ == JsonView::PosInt(n),
        m < 0 ==> Json::NegInt(m)@ == JsonView::NegInt(m),
        m >= 0 ==> Json::NegInt(m)@ == JsonView::PosInt(m as u64),
        Json::Str(s)@ == JsonView::Str(s@),
        Json::Real(t).wf() ==> Json::Real(t)@ == JsonView::Real(t@),
        Json::List(list)@ matches JsonView::List(all) && all.len() == list@.len() && forall|i: int|
            0 <= i < all.len() ==> #[trigger] all[i] == list@[i]@,
{
    lemma_list_elements(list, list@.len());
}

/// The contents of a list are those of its elements.
proof fn lemma_list_elements(v: Vec<Json>, n: nat)
    requires
        n <= v@.len(),
    ensures
        list_view(v, n).len() == n,
        forall|i: int| 0 <= i < n ==> #[trigger] list_view(v, n)[i] == v@[i]@,
    decreases n,
{
    if n > 0 {
        lemma_list_elements(v, (n - 1) as nat);
        assert(v@[n - 1] == v[n - 1]);
    }
}

/// Values of one kind are equal where they hold the same, lists and objects where
/// they are of one length and equal element by element, and values of different kinds
/// never.
pub proof fn equality_goes_by_kind(a: Json, b: Json)
    ensures
        a is Null && b is Null ==> json_same(a, b),
        a is Bool && b is Bool ==> json_same(a, b) == (a->Bool_0 == b->Bool_0),
        a is PosInt && b is PosInt ==> json_same(a, b) == (a->PosInt_0 == b->PosInt_0),
        a is NegInt && b is NegInt ==> json_same(a, b) == (a->NegInt_0 == b->NegInt_0),
        a is Str && b is Str ==> json_same(a, b) == (a->Str_0@ == b->Str_0@),
        a is Real && b is Real && a->Real_0@ == b->Real_0@ ==> json_same(a, b),
        a is Real && b is Real && a->Real_0@ != b->Real_0@ && a->Real_0@ != "0.0"@ && a->Real_0@
            != "-0.0"@ ==> !json_same(a, b),
        a is List && b is List ==> json_same(a, b) == (a->List_0@.len() == b->List_0@.len()
            && forall|i: int|
            0 <= i < a->List_0@.len() ==> json_same(#[trigger] a->List_0@[i], b->List_0@[i])),
        a is Dict && b is Dict ==> json_same(a, b) == (a->Dict_0@.len() == b->Dict_0@.len()
            && forall|i: int|
            0 <= i < a->Dict_0@.len() ==> (#[trigger] a->Dict_0@[i]).0@ == b->Dict_0@[i].0@
                && json_same(a->Dict_0@[i].1, b->Dict_0@[i].1)),
        a is Bool && !(b is Bool) ==> !json_same(a, b),
        a is Str && !(b is Str) ==> !json_same(a, b),
        a is PosInt && !(b is PosInt) ==> !json_same(a, b),
        a is Null && !(b is Null) ==> !json_same(a, b),
        a is List && !(b is List) ==> !json_same(a, b),
        a is Dict && !(b is Dict) ==> !json_same(a, b),
{
    if a is List && b is List {
        lemma_same_lists(a->List_0, b->List_0, a->List_0@.len());
    }
    if a is Dict && b is Dict {
        lemma_same_dicts(a->Dict_0, b->Dict_0, a->Dict_0@.len());
    }
}

/// The first elements of two lists are equal where each is.
proof fn lemma_same_lists(a: Vec<Json>, b: Vec<Json>, n: nat)
    requires
        n <= a@.len(),
    ensures
        lists_same(a, b, n) == (forall|i: int|
            0 <= i < n ==> json_same(#[trigger] a@[i], b@[i])),
    decreases n,
{
    if n > 0 {
        lemma_same_lists(a, b, (n - 1) as nat);
        assert(a@[n - 1] == a[n - 1] && b@[n - 1] == b[n - 1]);
    }
}

/// The first entries of two objects are equal where each is.
proof fn lemma_same_dicts(a: Vec<(String, Json)>, b: Vec<(String, Json)>, n: nat)
    requires
        n <= a@.len(),
    ensures
        dicts_same(a, b, n) == (forall|i: int|
            0 <= i < n ==> (#[trigger] a@[i]).0@ == b@[i].0@ && json_same(a@[i].1, b@[i].1)),
    decreases n,
{
    if n > 0 {
        lemma_same_dicts(a, b, (n - 1) as nat);
        assert(a@[n - 1] == a[n - 1] && b@[n - 1] == b[n - 1]);
    }
}

} // verus!
