//! Repair of the JSON Schemas that describe tool parameters.
//!
//! Some clients send schemas that carry `"type": null` in place of a real type,
//! which strict upstreams reject. Function parameters must also be an object
//! schema.

use vstd::prelude::*;

use crate::json::{Json, JsonValue, Object};

verus! {

/// What becomes of a schema's `type`.
pub enum TypeFix {
    Keep,
    Drop,
    Become(Seq<char>),
}

/// A `null` type becomes `object` or `array` where the schema's shape tells, and is
/// dropped where nothing does; the root of a schema always gets a type.
pub open spec fn type_fix(m: Map<Seq<char>, Json>, root: bool) -> TypeFix {
    if m.dom().contains("type"@) && m["type"@] is Null {
        if root || m.dom().contains("properties"@) {
            TypeFix::Become("object"@)
        } else if m.dom().contains("items"@) {
            TypeFix::Become("array"@)
        } else {
            TypeFix::Drop
        }
    } else if root && !m.dom().contains("type"@) {
        TypeFix::Become("object"@)
    } else {
        TypeFix::Keep
    }
}

/// The members with the type settled.
pub open spec fn fixed(m: Map<Seq<char>, Json>, fix: TypeFix) -> Map<Seq<char>, Json> {
    match fix {
        TypeFix::Keep => m,
        TypeFix::Drop => m.remove("type"@),
        TypeFix::Become(t) => m.insert("type"@, Json::Str(t)),
    }
}

/// A schema with every type in it settled: its own, and those of all schemas inside it.
pub open spec fn repaired(j: Json, root: bool) -> Json
    decreases j,
{
    match j {
        Json::Obj(m) => {
            let fix = type_fix(m, root);
            Json::Obj(
                Map::new(
                    |k: Seq<char>| fixed(m, fix).dom().contains(k),
                    |k: Seq<char>|
                        if k == "type"@ && fix is Become {
                            Json::Str(fix->Become_0)
                        } else if m.dom().contains(k) {
                            repaired(m[k], false)
                        } else {
                            arbitrary()
                        },
                ),
            )
        },
        Json::Arr(a) => Json::Arr(repaired_items(a)),
        _ => j,
    }
}

pub open spec fn repaired_items(a: Seq<Json>) -> Seq<Json>
    decreases a,
{
    Seq::new(
        a.len(),
        |i: int|
            if 0 <= i < a.len() {
                repaired(a[i], false)
            } else {
                arbitrary()
            },
    )
}

/// The members of a schema, each repaired on its own.
pub open spec fn repaired_members(m: Map<Seq<char>, Json>) -> Map<Seq<char>, Json> {
    Map::new(|k: Seq<char>| m.dom().contains(k), |k: Seq<char>| repaired(m[k], false))
}

proof fn lemma_repaired_object(m: Map<Seq<char>, Json>, root: bool)
    ensures
        repaired(Json::Obj(m), root) == Json::Obj(fixed(repaired_members(m), type_fix(m, root))),
{
    let out = repaired(Json::Obj(m), root)->Obj_0;
    assert(out =~= fixed(repaired_members(m), type_fix(m, root)));
}

/// The schema forwarded for a tool's parameters.
pub open spec fn tool_schema(params: Json) -> Json {
    if params is Obj {
        repaired(params, true)
    } else {
        Json::obj().with("type"@, Json::Str("object"@)).with("properties"@, Json::obj())
    }
}

/// Whether no schema inside `j` has the type `null`.
pub open spec fn no_null_type(j: Json) -> bool
    decreases j,
{
    match j {
        Json::Obj(m) => {
            &&& !(m.dom().contains("type"@) && m["type"@] is Null)
            &&& forall|k: Seq<char>| #[trigger] m.dom().contains(k) ==> no_null_type(m[k])
        },
        Json::Arr(a) => forall|i: int| 0 <= i < a.len() ==> no_null_type(#[trigger] a[i]),
        _ => true,
    }
}

/// A repaired schema has no `null` type anywhere inside it.
pub proof fn repaired_has_no_null_type(j: Json, root: bool)
    ensures
        no_null_type(repaired(j, root)),
        repaired(j, root) is Null <==> j is Null,
    decreases j,
{
    match j {
        Json::Obj(m) => {
            lemma_repaired_object(m, root);
            let members = repaired_members(m);
            let out = fixed(members, type_fix(m, root));
            if m.dom().contains("type"@) {
                repaired_has_no_null_type(m["type"@], false);
            }
            assert forall|k: Seq<char>| #[trigger] out.dom().contains(k) implies no_null_type(
                out[k],
            ) by {
                if m.dom().contains(k) {
                    repaired_has_no_null_type(m[k], false);
                    assert(members[k] == repaired(m[k], false));
                }
            }
        },
        Json::Arr(a) => {
            let out = repaired_items(a);
            assert forall|i: int| 0 <= i < out.len() implies no_null_type(#[trigger] out[i]) by {
                repaired_has_no_null_type(a[i], false);
            }
        },
        _ => {},
    }
}

/// A schema without `null` types is left as it is, except that the root of one
/// gets the type it lacks.
pub proof fn sound_schemas_are_left_alone(j: Json, root: bool)
    requires
        no_null_type(j),
        root ==> (j matches Json::Obj(m) ==> m.dom().contains("type"@)),
    ensures
        repaired(j, root) == j,
    decreases j,
{
    match j {
        Json::Obj(m) => {
            lemma_repaired_object(m, root);
            let members = repaired_members(m);
            assert forall|k: Seq<char>| #[trigger] m.dom().contains(k) implies members[k] == m[k] by {
                sound_schemas_are_left_alone(m[k], false);
            }
            assert(members =~= m);
        },
        Json::Arr(a) => {
            assert forall|i: int| 0 <= i < a.len() implies repaired(#[trigger] a[i], false)
                == a[i] by {
                sound_schemas_are_left_alone(a[i], false);
            }
            assert(repaired_items(a) =~= a);
        },
        _ => {},
    }
}

/// What is forwarded for a tool's parameters is an object schema with a type, in
/// which no type is `null`; forwarding it again changes nothing more.
pub proof fn tool_schemas_are_sound(params: Json)
    ensures
        tool_schema(params) is Obj,
        tool_schema(params).get("type"@) is Some,
        no_null_type(tool_schema(params)),
        tool_schema(tool_schema(params)) == tool_schema(params),
{
    match params {
        Json::Obj(m) => {
            lemma_repaired_object(m, true);
            repaired_has_no_null_type(params, true);
        },
        _ => {
            reveal_strlit("type");
            reveal_strlit("properties");
            assert("type"@.len() == 4);
            assert("properties"@.len() == 10);
            let out = tool_schema(params);
            let m = out->Obj_0;
            assert forall|k: Seq<char>| #[trigger] m.dom().contains(k) implies no_null_type(
                m[k],
            ) by {
                assert(k == "type"@ || k == "properties"@);
            }
        },
    }
    sound_schemas_are_left_alone(tool_schema(params), true);
}

/// Repair a tool's `parameters` before they are forwarded: a missing or non-object
/// schema becomes an empty object schema.
pub fn sanitize_parameters(params: &JsonValue) -> (r: JsonValue)
    ensures
        r@ == tool_schema(params@),
{
    match params {
        JsonValue::Object(_) => sanitize_schema(params, true),
        _ => JsonValue::obj().with("type", JsonValue::str("object")).with(
            "properties",
            JsonValue::obj(),
        ),
    }
}

/// Repair a JSON Schema node and everything below it.
pub fn sanitize_schema(node: &JsonValue, is_root: bool) -> (r: JsonValue)
    ensures
        r@ == repaired(node@, is_root),
    decreases node,
{
    match node {
        JsonValue::Object(o) => {
            let mut members = Object::new();
            let mut i: usize = 0;
            assert(o.entries@.take(0) =~= Seq::empty());
            assert(repaired_members(Map::empty()) =~= Map::empty());
            while i < o.entries.len()
                invariant
                    i <= o.entries@.len(),
                    *node == JsonValue::Object(*o),
                    members@ == repaired_members(crate::json::entries_view(o.entries@.take(i as int))),
                decreases o.entries@.len() - i,
            {
                let ghost seen = crate::json::entries_view(o.entries@.take(i as int));
                let ghost e = o.entries@[i as int];
                assert(decreases_to!(*node => node->Object_0.entries@[i as int].1));
                let child = sanitize_schema(&o.entries[i].1, false);
                members.insert(o.entries[i].0.as_str(), child);
                proof {
                    crate::json::lemma_entries_push(o.entries@.take(i as int), e);
                    assert(o.entries@.take(i as int).push(e) =~= o.entries@.take(i as int + 1));
                    assert(repaired_members(seen.insert(e.0@, e.1@)) =~= repaired_members(
                        seen,
                    ).insert(e.0@, repaired(e.1@, false)));
                }
                i = i + 1;
            }
            proof {
                assert(o.entries@.take(i as int) =~= o.entries@);
                lemma_repaired_object(o@, is_root);
            }
            let null_type = match o.get("type") {
                Some(JsonValue::Null) => true,
                _ => false,
            };
            if null_type {
                if is_root || o.contains_key("properties") {
                    members.insert("type", JsonValue::str("object"));
                } else if o.contains_key("items") {
                    members.insert("type", JsonValue::str("array"));
                } else {
                    members.remove("type");
                }
            } else if is_root && !o.contains_key("type") {
                members.insert("type", JsonValue::str("object"));
            }
            JsonValue::Object(members)
        },
        JsonValue::Array(a) => {
            let mut items: Vec<JsonValue> = Vec::new();
            let mut i: usize = 0;
            while i < a.len()
                invariant
                    i <= a@.len(),
                    *node == JsonValue::Array(*a),
                    items@.len() == i,
                    forall|j: int|
                        0 <= j < i ==> (#[trigger] items@[j])@ == repaired(a@[j]@, false),
                decreases a@.len() - i,
            {
                assert(decreases_to!(*node => node->Array_0));
                assert(decreases_to!(*a => a@[i as int]));
                let child = sanitize_schema(&a[i], false);
                items.push(child);
                i = i + 1;
            }
            assert(crate::json::values_view(items@) =~= repaired_items(
                crate::json::values_view(a@),
            ));
            JsonValue::Array(items)
        },
        _ => node.copy(),
    }
}

} // verus!
