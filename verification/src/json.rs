//! JSON values as far as the library writes them (strings, arrays and
//! objects), and their pretty-printed text, which `serde_json` writes.
use vstd::prelude::*;

verus! {

#[verifier::external_type_specification]
#[verifier::external_body]
pub struct ExSerdeJsonValue(serde_json::Value);

/// A JSON value: a string, an array, or an object with its members in order.
#[derive(Debug)]
pub enum JsonValue {
    Str(String),
    Arr(Vec<JsonValue>),
    Obj(Vec<(String, JsonValue)>),
}

/// A JSON value by view.
pub enum JsonView {
    Str(Seq<char>),
    Arr(Seq<JsonView>),
    Obj(Seq<(Seq<char>, JsonView)>),
}

/// The view of a JSON value.
pub open spec fn json_view(v: JsonValue) -> JsonView
    decreases v,
{
    match v {
        JsonValue::Str(s) => JsonView::Str(s@),
        JsonValue::Arr(a) => JsonView::Arr(
            Seq::new(
                a.len() as nat,
                |i: int|
                    if 0 <= i < a.len() {
                        json_view(a[i])
                    } else {
                        JsonView::Arr(Seq::empty())
                    },
            ),
        ),
        JsonValue::Obj(o) => JsonView::Obj(
            Seq::new(
                o.len() as nat,
                |i: int|
                    if 0 <= i < o.len() {
                        (o[i].0@, json_view(o[i].1))
                    } else {
                        (Seq::empty(), JsonView::Arr(Seq::empty()))
                    },
            ),
        ),
    }
}

/// The view of an array: the views of its elements, in order.
pub proof fn lemma_arr_view(a: Vec<JsonValue>)
    ensures
        json_view(JsonValue::Arr(a)) matches JsonView::Arr(vs) && vs.len() == a.len() && forall|i: int|
            0 <= i < a.len() ==> #[trigger] vs[i] == json_view(a[i]),
{
}

/// The view of an object: its keys and the views of its values, in order.
pub proof fn lemma_obj_view(o: Vec<(String, JsonValue)>)
    ensures
        json_view(JsonValue::Obj(o)) matches JsonView::Obj(ms) && ms.len() == o.len() && forall|i: int|
            0 <= i < o.len() ==> #[trigger] ms[i] == (o[i].0@, json_view(o[i].1)),
{
}

/// `serde_json::to_string_pretty` of the value: `serde_json::Value` built
/// from it member for member (an object becomes a `serde_json::Map`).
pub uninterp spec fn pretty_json(v: JsonView) -> Seq<char>;

/// The `serde_json::Value` with the same strings, elements and members.
#[verifier::external_body]
fn serde_value(v: &JsonValue) -> serde_json::Value {
    match v {
        JsonValue::Str(s) => serde_json::Value::String(s.clone()),
        JsonValue::Arr(a) => serde_json::Value::Array(a.iter().map(serde_value).collect()),
        JsonValue::Obj(o) => serde_json::Value::Object(o.iter().map(|(k, x)| (k.clone(), serde_value(x))).collect()),
    }
}

/// Calls `serde_json::to_string_pretty` on the value converted by
/// `serde_value`. Serialising a `serde_json::Value` cannot fail (its map keys
/// are strings).
#[verifier::external_body]
pub(crate) fn json_pretty(v: &JsonValue) -> (r: String)
    ensures
        r@ == pretty_json(json_view(*v)),
{
    serde_json::to_string_pretty(&serde_value(v)).unwrap_or_default()
}

} // verus!
