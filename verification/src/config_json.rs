//! How the parts of the configuration are written as JSON.

use vstd::prelude::*;

use crate::config::{
    CostWindow, ModelPrice, PriceView, RouteTarget, SpecView, TargetView, UsageSpec, UsageWindow,
    WindowView,
};
use crate::dict::Dict;
use crate::json::{Json, JsonValue, Object};

verus! {

/// A type whose values are written as JSON.
pub trait ToJson: View + Sized {
    /// The document of a value.
    spec fn json(v: Self::V) -> Json;

    fn to_json(&self) -> (r: JsonValue)
        ensures
            r@ == Self::json(self@),
    ;
}

/// The documents of a list of values.
pub open spec fn jsons<T: ToJson>(s: Seq<T::V>) -> Seq<Json> {
    s.map_values(|v: T::V| T::json(v))
}

/// The documents of a list of values.
pub fn list_jsons<T: ToJson>(v: &Vec<T>) -> (r: Vec<JsonValue>)
    ensures
        crate::json::values_view(r@) == jsons::<T>(crate::text::seq_view(v@)),
{
    broadcast use crate::json::group_values;

    let mut out: Vec<JsonValue> = Vec::new();
    let mut i: usize = 0;
    while i < v.len()
        invariant
            i <= v@.len(),
            out@.len() == i,
            forall|j: int| 0 <= j < i ==> (#[trigger] out@[j])@ == T::json(v@[j]@),
        decreases v@.len() - i,
    {
        out.push(v[i].to_json());
        i = i + 1;
    }
    assert(crate::json::values_view(out@) =~= jsons::<T>(crate::text::seq_view(v@)));
    out
}

/// An array of the documents of a list of values.
pub fn list_json<T: ToJson>(v: &Vec<T>) -> (r: JsonValue)
    ensures
        r@ == Json::Arr(jsons::<T>(crate::text::seq_view(v@))),
{
    JsonValue::Array(list_jsons(v))
}

/// An object of the documents of the values of a map.
pub fn dict_json<T: ToJson>(d: &Dict<T>) -> (r: JsonValue)
    ensures
        r@ == Json::Obj(d@.map_values(|v: T::V| T::json(v))),
{
    let n = d.len();
    let ghost pairs = d.pairs();
    let ghost f = |v: T::V| T::json(v);
    let mut out = Object::new();
    let mut i: usize = 0;
    assert(crate::dict::pairs_map(pairs.take(0)) =~= Map::empty());
    assert(out@ =~= crate::dict::pairs_map(pairs.take(0)).map_values(f));
    while i < n
        invariant
            i <= n,
            n == pairs.len(),
            pairs == d.pairs(),
            crate::dict::ascending(pairs),
            f == (|v: T::V| T::json(v)),
            out@ == crate::dict::pairs_map(pairs.take(i as int)).map_values(f),
        decreases n - i,
    {
        proof {
            crate::dict::lemma_pairs_take(pairs, i as int);
        }
        let v = d.value(i).to_json();
        out.insert(d.key(i).as_str(), v);
        assert(out@ =~= crate::dict::pairs_map(pairs.take(i as int + 1)).map_values(f));
        i = i + 1;
    }
    assert(pairs.take(i as int) =~= pairs);
    JsonValue::Object(out)
}

impl ToJson for String {
    open spec fn json(v: Seq<char>) -> Json {
        Json::Str(v)
    }

    fn to_json(&self) -> (r: JsonValue) {
        JsonValue::String(self.clone())
    }
}

impl ToJson for RouteTarget {
    open spec fn json(v: TargetView) -> Json {
        Json::obj().with("provider"@, Json::Str(v.provider)).with("model"@, Json::Str(v.model))
    }

    fn to_json(&self) -> (r: JsonValue) {
        JsonValue::obj().with("provider", JsonValue::str(self.provider.as_str())).with(
            "model",
            JsonValue::str(self.model.as_str()),
        )
    }
}

impl ToJson for ModelPrice {
    open spec fn json(v: PriceView) -> Json {
        Json::obj().with("input"@, v.input.json).with("output"@, v.output.json)
    }

    fn to_json(&self) -> (r: JsonValue) {
        JsonValue::obj().with("input", self.input.to_json()).with("output", self.output.to_json())
    }
}

/// A window as it is configured.
pub open spec fn window_json(w: WindowView) -> Json {
    Json::obj().with("label"@, Json::Str(w.label)).with("window_secs"@, Json::num(w.window_secs)).with(
        "limit"@,
        w.limit.json,
    )
}

impl ToJson for UsageWindow {
    open spec fn json(v: WindowView) -> Json {
        window_json(v)
    }

    fn to_json(&self) -> (r: JsonValue) {
        JsonValue::obj().with("label", JsonValue::str(self.label.as_str())).with(
            "window_secs",
            JsonValue::num(self.window_secs),
        ).with("limit", self.limit.to_json())
    }
}

impl ToJson for CostWindow {
    open spec fn json(v: WindowView) -> Json {
        window_json(v)
    }

    fn to_json(&self) -> (r: JsonValue) {
        JsonValue::obj().with("label", JsonValue::str(self.label.as_str())).with(
            "window_secs",
            JsonValue::num(self.window_secs),
        ).with("limit", self.limit.to_json())
    }
}

/// The prices of models, by model.
pub open spec fn prices_json(m: Map<Seq<char>, PriceView>) -> Json {
    Json::Obj(m.map_values(|p: PriceView| <ModelPrice as ToJson>::json(p)))
}

impl ToJson for UsageSpec {
    open spec fn json(v: SpecView) -> Json {
        Json::obj().with("usage_type"@, Json::Str(crate::config::kind_name(v.kind()))).with(
            "windows"@,
            Json::Arr(jsons::<UsageWindow>(v.windows())),
        ).with_opt(
            "model_prices"@,
            match v.model_prices() {
                Some(m) => Some(prices_json(m)),
                None => None,
            },
        )
    }

    fn to_json(&self) -> (r: JsonValue) {
        let prices = match self.model_prices() {
            Some(m) => Some(dict_json(m)),
            None => None,
        };
        JsonValue::obj().with("usage_type", JsonValue::str(self.kind().as_str())).with(
            "windows",
            list_json(self.windows()),
        ).with_opt("model_prices", prices)
    }
}

/// The document of an optional number: `null` when there is none.
pub open spec fn opt_num_json(n: Option<u64>) -> Json {
    match n {
        Some(n) => Json::num(n),
        None => Json::Null,
    }
}

pub fn opt_num(n: Option<u64>) -> (r: JsonValue)
    ensures
        r@ == opt_num_json(n),
{
    match n {
        Some(n) => JsonValue::num(n),
        None => JsonValue::Null,
    }
}

/// The document of an optional signed number: `null` when there is none.
pub open spec fn opt_signed_json(n: Option<i64>) -> Json {
    match n {
        Some(n) => Json::signed(n),
        None => Json::Null,
    }
}

pub fn opt_signed(n: Option<i64>) -> (r: JsonValue)
    ensures
        r@ == opt_signed_json(n),
{
    match n {
        Some(n) => JsonValue::signed(n),
        None => JsonValue::Null,
    }
}

/// The document of an optional flag: `null` when there is none.
pub open spec fn opt_bool_json(b: Option<bool>) -> Json {
    match b {
        Some(b) => Json::Bool(b),
        None => Json::Null,
    }
}

pub fn opt_bool(b: Option<bool>) -> (r: JsonValue)
    ensures
        r@ == opt_bool_json(b),
{
    match b {
        Some(b) => JsonValue::Bool(b),
        None => JsonValue::Null,
    }
}

/// The document of an optional string: `null` when there is none.
pub fn opt_string(s: &Option<String>) -> (r: JsonValue)
    ensures
        r@ == Json::opt_str(crate::text::opt_view(*s)),
{
    match s {
        Some(s) => JsonValue::str(s.as_str()),
        None => JsonValue::Null,
    }
}

} // verus!
