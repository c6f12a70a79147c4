//! A plain model of JSON documents, the reads that the harness makes of
//! package.json and of the results files, and the calls into serde_json that
//! parse and print them.
use vstd::prelude::*;

use crate::text::{chars_of, starts_with};
use serde_json::{Number, Value};

verus! {

/// A number as serde_json read it, with the text that it prints as. Only a
/// parse fills one, so the text is always the printed form of the value.
pub struct JsonNumber {
    value: Number,
    text: String,
}

impl JsonNumber {
    /// The text that the number prints as.
    pub closed spec fn printed(&self) -> Seq<char> {
        self.text@
    }
}

/// A JSON document. Objects keep their members in document order, as
/// serde_json does with `preserve_order`; numbers keep serde_json's value
/// and are seen by their printed form.
pub enum Json {
    Null,
    Bool(bool),
    Number(JsonNumber),
    Str(String),
    Array(Vec<Json>),
    Object(Vec<(String, Json)>),
}

/// The mathematical value of a [`Json`] document.
pub enum JsonView {
    Null,
    Bool(bool),
    Number(Seq<char>),
    Str(Seq<char>),
    Array(Seq<JsonView>),
    Object(Seq<(Seq<char>, JsonView)>),
}

/// The value of a document.
pub open spec fn json_view(j: Json) -> JsonView
    decreases j,
{
    match j {
        Json::Null => JsonView::Null,
        Json::Bool(b) => JsonView::Bool(b),
        Json::Number(n) => JsonView::Number(n.printed()),
        Json::Str(s) => JsonView::Str(s@),
        Json::Array(a) => JsonView::Array(items_view(a@)),
        Json::Object(m) => JsonView::Object(members_view(m@)),
    }
}

/// The values of a sequence of documents.
pub open spec fn items_view(s: Seq<Json>) -> Seq<JsonView>
    decreases s,
{
    if s.len() == 0 {
        Seq::empty()
    } else {
        items_view(s.drop_last()).push(json_view(s.last()))
    }
}

/// The values of a sequence of object members.
pub open spec fn members_view(s: Seq<(String, Json)>) -> Seq<(Seq<char>, JsonView)>
    decreases s,
{
    if s.len() == 0 {
        Seq::empty()
    } else {
        members_view(s.drop_last()).push((s.last().0@, json_view(s.last().1)))
    }
}

impl View for Json {
    type V = JsonView;

    open spec fn view(&self) -> JsonView {
        json_view(*self)
    }
}

/// Every position of `members_view` holds the key and value of the member there.
pub proof fn lemma_members_view(s: Seq<(String, Json)>)
    ensures
        members_view(s).len() == s.len(),
        forall|i: int|
            0 <= i < s.len() ==> #[trigger] members_view(s)[i] == (s[i].0@, json_view(s[i].1)),
    decreases s.len(),
{
    if s.len() > 0 {
        lemma_members_view(s.drop_last());
    }
}

/// The value of the first member at or after `i` whose key is `key`.
pub open spec fn member_from(ms: Seq<(Seq<char>, JsonView)>, key: Seq<char>, i: int) -> Option<
    JsonView,
>
    decreases ms.len() - i,
{
    if i < 0 || i >= ms.len() {
        None
    } else if ms[i].0 == key {
        Some(ms[i].1)
    } else {
        member_from(ms, key, i + 1)
    }
}

/// What `Value::get(key)` returns: the member named `key` of an object, and
/// nothing for any other kind of value.
pub open spec fn get_of(j: JsonView, key: Seq<char>) -> Option<JsonView> {
    match j {
        JsonView::Object(ms) => member_from(ms, key, 0),
        _ => None,
    }
}

/// What `Value::as_str` returns on an optional value.
pub open spec fn str_of(j: Option<JsonView>) -> Option<Seq<char>> {
    match j {
        Some(JsonView::Str(s)) => Some(s),
        _ => None,
    }
}

/// The value of an optional document.
pub open spec fn opt_view(j: Option<&Json>) -> Option<JsonView> {
    match j {
        Some(v) => Some(v@),
        None => None,
    }
}

/// What `j.get(k1).and_then(|v| v.get(k2))` returns.
pub open spec fn get2_of(j: JsonView, k1: Seq<char>, k2: Seq<char>) -> Option<JsonView> {
    match get_of(j, k1) {
        Some(v) => get_of(v, k2),
        None => None,
    }
}

/// Whether two string slices hold the same characters.
pub fn str_eq(a: &str, b: &str) -> (res: bool)
    ensures
        res == (a@ == b@),
{
    let ac = chars_of(a);
    let bc = chars_of(b);
    if ac.len() != bc.len() {
        return false;
    }
    let r = starts_with(ac.as_slice(), bc.as_slice());
    proof {
        assert(ac@.take(bc@.len() as int) =~= ac@);
    }
    r
}

/// The member named `key` of `j` when `j` is an object (`Value::get`).
pub fn get<'a>(j: &'a Json, key: &str) -> (res: Option<&'a Json>)
    ensures
        match res {
            Some(v) => get_of(j@, key@) == Some(v@),
            None => get_of(j@, key@) is None,
        },
{
    match j {
        Json::Object(members) => {
            let n = members.len();
            let ghost ms = members_view(members@);
            proof {
                lemma_members_view(members@);
            }
            assert(j@ == JsonView::Object(ms));
            let mut i: usize = 0;
            while i < n
                invariant
                    n == members@.len(),
                    ms == members_view(members@),
                    ms.len() == n,
                    j@ == JsonView::Object(ms),
                    forall|k: int| 0 <= k < n ==> #[trigger] ms[k] == (members@[k].0@, json_view(members@[k].1)),
                    i <= n,
                    member_from(ms, key@, 0) == member_from(ms, key@, i as int),
                decreases n - i,
            {
                if str_eq(members[i].0.as_str(), key) {
                    proof {
                        assert(ms[i as int].0 == key@);
                    }
                    return Some(&members[i].1);
                }
                i = i + 1;
            }
            None
        },
        _ => None,
    }
}

/// The text of `j` when it is a JSON string (`Value::as_str`).
pub fn as_str(j: Option<&Json>) -> (res: Option<String>)
    ensures
        match res {
            Some(s) => str_of(opt_view(j)) == Some(s@),
            None => str_of(opt_view(j)) is None,
        },
{
    match j {
        Some(Json::Str(s)) => Some(s.clone()),
        _ => None,
    }
}

/// The text at `j[k1][k2]` when it is a JSON string.
pub fn str_at(j: &Json, k1: &str, k2: &str) -> (res: Option<String>)
    ensures
        match res {
            Some(s) => str_of(get2_of(j@, k1@, k2@)) == Some(s@),
            None => str_of(get2_of(j@, k1@, k2@)) is None,
        },
{
    match get(j, k1) {
        Some(inner) => as_str(get(inner, k2)),
        None => None,
    }
}

// ── serde_json ──────────────────────────────────────────────────────────────

#[verifier::external_type_specification]
#[verifier::external_body]
pub struct ExSerdeJsonValue(Value);

#[verifier::external_type_specification]
#[verifier::external_body]
pub struct ExSerdeJsonNumber(Number);

/// The document that `serde_json::from_str::<serde_json::Value>` reads from a
/// text (with the `preserve_order` feature), or `None` where it reports an
/// error.
pub uninterp spec fn parsed_json(raw: Seq<char>) -> Option<JsonView>;

/// The text that `serde_json::to_string_pretty` writes for a document.
pub uninterp spec fn pretty_json(v: JsonView) -> Seq<char>;

/// Moves a serde_json value into the library's own document type, member by
/// member and item by item; each number keeps its value beside its printed
/// form (`Number`'s `Display`).
#[verifier::external_body]
fn from_serde(v: Value) -> Json {
    match v {
        Value::Null => Json::Null,
        Value::Bool(b) => Json::Bool(b),
        Value::Number(n) => Json::Number(JsonNumber { text: n.to_string(), value: n }),
        Value::String(s) => Json::Str(s),
        Value::Array(a) => Json::Array(a.into_iter().map(from_serde).collect()),
        Value::Object(m) => Json::Object(m.into_iter().map(|(k, x)| (k, from_serde(x))).collect()),
    }
}

/// Moves a document back into a serde_json value, each number as the value
/// that was read.
#[verifier::external_body]
fn to_serde(v: &Json) -> Value {
    match v {
        Json::Null => Value::Null,
        Json::Bool(b) => Value::Bool(*b),
        Json::Number(n) => Value::Number(n.value.clone()),
        Json::Str(s) => Value::String(s.clone()),
        Json::Array(a) => Value::Array(a.iter().map(to_serde).collect()),
        Json::Object(m) => Value::Object(m.iter().map(|(k, x)| (k.clone(), to_serde(x))).collect()),
    }
}

/// Parses a JSON text with `serde_json::from_str`. The contract claims only
/// that the result is the document that serde_json reads from the text, a
/// function of the text alone.
#[verifier::external_body]
pub(crate) fn parse_json(raw: &str) -> (res: Option<Json>)
    ensures
        match res {
            Some(j) => parsed_json(raw@) == Some(j@),
            None => parsed_json(raw@) is None,
        },
{
    serde_json::from_str::<Value>(raw).ok().map(from_serde)
}

/// Prints a document with `serde_json::to_string_pretty`. The contract claims
/// that the text is the one serde_json writes for the document's value: a
/// number is written as its `Display` prints it (`itoa` for integers, `zmij`
/// for finite floats, in both), so the text depends on the printed forms
/// alone. Printing a `Value` into a `Vec` fails on no input (its map keys are
/// strings and the writer reports no error); the `expect` never fires.
#[verifier::external_body]
pub(crate) fn render_pretty(v: &Json) -> (res: String)
    ensures
        res@ == pretty_json(v@),
{
    serde_json::to_string_pretty(&to_serde(v)).expect("a Value always prints")
}

} // verus!
