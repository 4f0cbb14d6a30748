//! What the JSON columns of the stored rows say.

use vstd::prelude::*;

use crate::config::{RouteTarget, TargetView};
use crate::dict::Dict;
use crate::json::{serde_names, serde_strings, Json, JsonValue};

verus! {

/// The characters of a string; none for any other document.
pub open spec fn text_of(j: Json) -> Seq<char> {
    match j {
        Json::Str(s) => s,
        _ => Seq::empty(),
    }
}

/// A map of strings: an object whose members are all strings.
pub open spec fn strings_in(j: Option<Json>) -> Option<Map<Seq<char>, Seq<char>>> {
    match j {
        Some(Json::Obj(m)) => if forall|k: Seq<char>|
            m.dom().contains(k) ==> (#[trigger] m[k]) is Str {
            Some(m.map_values(|v: Json| text_of(v)))
        } else {
            None
        },
        _ => None,
    }
}

/// A list of strings: an array whose elements are all strings.
pub open spec fn names_in(j: Option<Json>) -> Option<Seq<Seq<char>>> {
    match j {
        Some(Json::Arr(a)) => if forall|i: int| 0 <= i < a.len() ==> (#[trigger] a[i]) is Str {
            Some(a.map_values(|v: Json| text_of(v)))
        } else {
            None
        },
        _ => None,
    }
}

/// A target of a route: an object that names a provider and a model, or the two as a pair.
pub open spec fn target_in(j: Json) -> Option<TargetView> {
    match j {
        Json::Arr(a) => if a.len() == 2 && a[0] is Str && a[1] is Str {
            Some(TargetView { provider: text_of(a[0]), model: text_of(a[1]) })
        } else {
            None
        },
        _ => match (j.get_str("provider"@), j.get_str("model"@)) {
            (Some(provider), Some(model)) => Some(TargetView { provider, model }),
            _ => None,
        },
    }
}

/// A list of targets: an array whose elements are all targets.
pub open spec fn targets_in(j: Option<Json>) -> Option<Seq<TargetView>> {
    match j {
        Some(Json::Arr(a)) => if forall|i: int|
            0 <= i < a.len() ==> target_in(#[trigger] a[i]) is Some {
            Some(a.map_values(|v: Json| target_in(v)->Some_0))
        } else {
            None
        },
        _ => None,
    }
}

/// The views of the elements of an optional list.
pub open spec fn opt_seq_view<T: View>(o: Option<Vec<T>>) -> Option<Seq<T::V>> {
    match o {
        Some(v) => Some(crate::text::seq_view(v@)),
        None => None,
    }
}

/// The map that a list of pairs stands for, the last one of a name being the one that
/// counts.
pub open spec fn pairs_view(s: Seq<(String, String)>) -> Map<Seq<char>, Seq<char>>
    decreases s.len(),
{
    if s.len() == 0 {
        Map::empty()
    } else {
        pairs_view(s.drop_last()).insert(s.last().0@, s.last().1@)
    }
}

/// The map of strings that a text is the JSON of.
pub fn read_strings(text: &str) -> (r: Option<Dict<String>>)
    ensures
        crate::text::opt_view(r) == crate::json::strings_read(text@),
{
    let pairs = match serde_strings(text) {
        Some(v) => v,
        None => {
            return None;
        },
    };
    let mut d: Dict<String> = Dict::new();
    let mut i: usize = 0;
    assert(pairs@.take(0) =~= Seq::empty());
    while i < pairs.len()
        invariant
            i <= pairs@.len(),
            d@ == pairs_view(pairs@.take(i as int)),
        decreases pairs@.len() - i,
    {
        assert(pairs@.take(i as int + 1).drop_last() =~= pairs@.take(i as int));
        assert(pairs@.take(i as int + 1).last() == pairs@[i as int]);
        d.insert(pairs[i].0.as_str(), pairs[i].1.clone());
        i = i + 1;
    }
    assert(pairs@.take(i as int) =~= pairs@);
    Some(d)
}

/// The list of strings that a text is the JSON of.
pub fn read_names(text: &str) -> (r: Option<Vec<String>>)
    ensures
        opt_seq_view(r) == crate::json::names_read(text@),
{
    serde_names(text)
}

/// The target that a document stands for.
fn read_target(v: &JsonValue) -> (r: Option<RouteTarget>)
    ensures
        crate::text::opt_view(r) == target_in(v@),
{
    match v {
        JsonValue::Array(a) => {
            assert(crate::json::values_view(a@).len() == a@.len());
            if a.len() != 2 {
                return None;
            }
            assert(crate::json::values_view(a@)[0] == a@[0]@);
            assert(crate::json::values_view(a@)[1] == a@[1]@);
            match (a[0].as_str(), a[1].as_str()) {
                (Some(provider), Some(model)) => Some(
                    RouteTarget { provider: provider.to_owned(), model: model.to_owned() },
                ),
                _ => None,
            }
        },
        _ => match (v.get_str("provider"), v.get_str("model")) {
            (Some(provider), Some(model)) => Some(
                RouteTarget { provider: provider.to_owned(), model: model.to_owned() },
            ),
            _ => None,
        },
    }
}

/// The list of targets that a text is the JSON of. Where an object has a member twice, the
/// last one counts.
pub fn read_targets(text: &str) -> (r: Option<Vec<RouteTarget>>)
    ensures
        opt_seq_view(r) == targets_in(crate::json::json_parse(text@)),
{
    match JsonValue::parse(text) {
        Some(JsonValue::Array(a)) => {
            let ghost view = crate::json::values_view(a@);
            let mut out: Vec<RouteTarget> = Vec::new();
            let mut i: usize = 0;
            while i < a.len()
                invariant
                    i <= a@.len(),
                    view == crate::json::values_view(a@),
                    crate::json::json_parse(text@) == Some(Json::Arr(view)),
                    out@.len() == i,
                    forall|j: int|
                        0 <= j < i ==> target_in(#[trigger] view[j]) == Some(out@[j]@),
                decreases a@.len() - i,
            {
                assert(view[i as int] == a@[i as int]@);
                match read_target(&a[i]) {
                    Some(t) => {
                        out.push(t);
                    },
                    None => {
                        return None;
                    },
                }
                i = i + 1;
            }
            assert(crate::text::seq_view(out@) =~= view.map_values(
                |v: Json| target_in(v)->Some_0,
            ));
            Some(out)
        },
        _ => None,
    }
}

} // verus!
