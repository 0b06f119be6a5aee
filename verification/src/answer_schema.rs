//! Post-hoc validation of an answer's `extra` value against a declared JSON
//! schema. Advisory: violations become messages, never failures.
//!
//! The supported subset: `type` (object/array/string/number/integer/boolean/
//! null), `required` and `properties` for objects, and `items` for arrays
//! (recursively). Unknown keywords are ignored.

use vstd::prelude::*;
use crate::json::{Json, JsonNumber, obj_get, float_text_is_whole, float_text_whole, str_eq};
use crate::text::{push_str, push_decimal, decimal, strs};

verus! {

/// The JSON type name of a value.
pub open spec fn type_name_of(v: Json) -> Seq<char> {
    match v {
        Json::Null => "null"@,
        Json::Bool(_) => "boolean"@,
        Json::Number(_) => "number"@,
        Json::String(_) => "string"@,
        Json::Array(_) => "array"@,
        Json::Object(_) => "object"@,
    }
}

/// The JSON type name of a value.
pub fn json_type_name(v: &Json) -> (r: &'static str)
    ensures
        r@ == type_name_of(*v),
{
    match v {
        Json::Null => "null",
        Json::Bool(_) => "boolean",
        Json::Number(_) => "number",
        Json::String(_) => "string",
        Json::Array(_) => "array",
        Json::Object(_) => "object",
    }
}

/// Whether a number has no fractional part (an integer, or a float whose
/// fraction is zero).
pub open spec fn number_is_whole(n: JsonNumber) -> bool {
    match n {
        JsonNumber::PosInt(_) => true,
        JsonNumber::NegInt(_) => true,
        JsonNumber::Float(t) => float_text_is_whole(t@),
    }
}

/// Whether `v` has the schema type `ty`; an unknown type name matches anything.
pub open spec fn type_matches(ty: Seq<char>, v: Json) -> bool {
    if ty == "object"@ {
        v is Object
    } else if ty == "array"@ {
        v is Array
    } else if ty == "string"@ {
        v is String
    } else if ty == "number"@ {
        v is Number
    } else if ty == "integer"@ {
        v matches Json::Number(n) && number_is_whole(n)
    } else if ty == "boolean"@ {
        v is Bool
    } else if ty == "null"@ {
        v is Null
    } else {
        true
    }
}

/// Whether `v` has the schema type `ty`.
pub fn matches_type(ty: &str, v: &Json) -> (r: bool)
    ensures
        r == type_matches(ty@, *v),
{
    if str_eq(ty, "object") {
        matches!(v, Json::Object(_))
    } else if str_eq(ty, "array") {
        matches!(v, Json::Array(_))
    } else if str_eq(ty, "string") {
        matches!(v, Json::String(_))
    } else if str_eq(ty, "number") {
        matches!(v, Json::Number(_))
    } else if str_eq(ty, "integer") {
        match v {
            Json::Number(JsonNumber::PosInt(_)) => true,
            Json::Number(JsonNumber::NegInt(_)) => true,
            Json::Number(JsonNumber::Float(t)) => float_text_whole(t.as_str()),
            _ => false,
        }
    } else if str_eq(ty, "boolean") {
        matches!(v, Json::Bool(_))
    } else if str_eq(ty, "null") {
        matches!(v, Json::Null)
    } else {
        true
    }
}

/// The schema's `type` keyword, when it is a string.
pub open spec fn schema_type(schema: Json) -> Option<Seq<char>> {
    match schema.member("type"@) {
        Some(Json::String(t)) => Some(t@),
        _ => None,
    }
}

/// The message for a type mismatch.
pub open spec fn type_error(path: Seq<char>, ty: Seq<char>, v: Json) -> Seq<char> {
    path + ": expected type `"@ + ty + "`, got `"@ + type_name_of(v) + "`"@
}

/// The message for a missing required property.
pub open spec fn missing_error(path: Seq<char>, key: Seq<char>) -> Seq<char> {
    path + ": missing required property `"@ + key + "`"@
}

/// The path of an object member.
pub open spec fn member_path(path: Seq<char>, key: Seq<char>) -> Seq<char> {
    path + "."@ + key
}

/// The path of an array element.
pub open spec fn item_path(path: Seq<char>, i: nat) -> Seq<char> {
    path + "["@ + decimal(i) + "]"@
}

/// Messages for the `required` names (in order) absent from `entries`.
pub open spec fn required_errors(req: Seq<Json>, entries: Seq<(String, Json)>, path: Seq<char>) -> Seq<Seq<char>>
    decreases req.len(),
{
    if req.len() == 0 {
        seq![]
    } else {
        let rest = required_errors(req.drop_last(), entries, path);
        match req.last() {
            Json::String(k) => if obj_get(entries, k@) is None {
                rest.push(missing_error(path, k@))
            } else {
                rest
            },
            _ => rest,
        }
    }
}

pub proof fn lemma_obj_get_member(entries: Seq<(String, Json)>, key: Seq<char>)
    ensures
        obj_get(entries, key) matches Some(c) ==> exists|i: int|
            0 <= i < entries.len() && #[trigger] entries[i].1 == c,
    decreases entries.len(),
{
    if entries.len() > 0 && entries[0].0@ != key {
        lemma_obj_get_member(entries.drop_first(), key);
        if obj_get(entries.drop_first(), key) is Some {
            let c = obj_get(entries.drop_first(), key)->0;
            let i = choose|i: int| 0 <= i < entries.drop_first().len() && #[trigger] entries.drop_first()[i].1 == c;
            assert(entries[i + 1].1 == c);
        }
    } else if entries.len() > 0 {
        assert(entries[0].1 == obj_get(entries, key)->0);
    }
}

/// Messages from checking each declared property of `props` (in order)
/// that the object `value` has.
pub open spec fn props_errors(value: Json, props: Seq<(String, Json)>, path: Seq<char>) -> Seq<Seq<char>>
    decreases value, 1int, props.len(),
{
    if props.len() == 0 {
        seq![]
    } else {
        let rest = props_errors(value, props.drop_last(), path);
        let key = props.last().0@;
        match value {
            Json::Object(es) => match obj_get(es@, key) {
                Some(child) => {
                    proof {
                        lemma_obj_get_member(es@, key);
                        let i = choose|i: int| 0 <= i < es@.len() && #[trigger] es@[i].1 == child;
                        assert(decreases_to!(value => es));
                        assert(decreases_to!(es => es@));
                        assert(decreases_to!(es@ => es@[i]));
                        assert(decreases_to!(es@[i] => es@[i].1));
                    }
                    rest + validate_spec(props.last().1, child, member_path(path, key))
                },
                None => rest,
            },
            _ => rest,
        }
    }
}

/// Messages from checking the first `n` elements of the array `value`
/// against the item schema `items`.
pub open spec fn items_errors(value: Json, items: Json, n: nat, path: Seq<char>) -> Seq<Seq<char>>
    decreases value, 1int, n,
{
    if n == 0 {
        seq![]
    } else {
        let rest = items_errors(value, items, (n - 1) as nat, path);
        match value {
            Json::Array(elems) => if n <= elems@.len() {
                proof {
                    assert(decreases_to!(value => elems));
                    assert(decreases_to!(elems => elems@));
                    assert(decreases_to!(elems@ => elems@[n - 1]));
                }
                rest + validate_spec(items, elems@[n - 1], item_path(path, (n - 1) as nat))
            } else {
                rest
            },
            _ => rest,
        }
    }
}

/// The violation messages of `value` against `schema`, reported under `path`.
pub open spec fn validate_spec(schema: Json, value: Json, path: Seq<char>) -> Seq<Seq<char>>
    decreases value, 2int, 0nat,
{
    match schema_type(schema) {
        Some(ty) if !type_matches(ty, value) => seq![type_error(path, ty, value)],
        _ => {
            let obj_errs = match value {
                Json::Object(es) => {
                    let req = match schema.member("required"@) {
                        Some(Json::Array(r)) => required_errors(r@, es@, path),
                        _ => seq![],
                    };
                    let props = match schema.member("properties"@) {
                        Some(Json::Object(p)) => props_errors(value, p@, path),
                        _ => seq![],
                    };
                    req + props
                },
                _ => seq![],
            };
            let arr_errs = match value {
                Json::Array(elems) => match schema.member("items"@) {
                    Some(sch) => items_errors(value, sch, elems@.len(), path),
                    None => seq![],
                },
                _ => seq![],
            };
            obj_errs + arr_errs
        },
    }
}

/// Validate `value` against `schema`: one human-readable message per
/// violation, empty when it conforms or when the schema only uses keywords
/// this validator ignores.
pub fn validate_extra(schema: &Json, value: &Json) -> (r: Vec<String>)
    ensures
        strs(r@) == validate_spec(*schema, *value, "extra"@),
{
    let mut errors: Vec<String> = Vec::new();
    validate_node(schema, value, "extra", &mut errors);
    assert(strs(errors@) =~= Seq::<Seq<char>>::empty() + validate_spec(*schema, *value, "extra"@));
    errors
}

fn concat3(a: &str, b: &str, c: &str) -> (r: String)
    ensures
        r@ == a@ + b@ + c@,
{
    let mut m = String::new();
    push_str(&mut m, a);
    push_str(&mut m, b);
    push_str(&mut m, c);
    m
}

fn push_error(errors: &mut Vec<String>, msg: String)
    ensures
        strs(final(errors)@) == strs(old(errors)@).push(msg@),
{
    errors.push(msg);
    assert(strs(errors@) =~= strs(old(errors)@).push(msg@));
}

fn validate_node(schema: &Json, value: &Json, path: &str, errors: &mut Vec<String>)
    ensures
        strs(final(errors)@) == strs(old(errors)@) + validate_spec(*schema, *value, path@),
    decreases *value,
{
    if let Some(t) = schema.get("type") {
        if let Some(ty) = t.as_str() {
            if !matches_type(ty, value) {
                let mut m = concat3(path, ": expected type `", ty);
                push_str(&mut m, "`, got `");
                push_str(&mut m, json_type_name(value));
                push_str(&mut m, "`");
                push_error(errors, m);
                return;
            }
        }
    }
    let ghost start = strs(errors@);
    assert(strs(errors@) == start + Seq::<Seq<char>>::empty());
    if let Json::Object(es) = value {
        if let Some(Json::Array(req)) = schema.get("required") {
            let mut i: usize = 0;
            assert(req@.take(0) =~= Seq::<Json>::empty());
            while i < req.len()
                invariant
                    i <= req@.len(),
                    *value == Json::Object(*es),
                    strs(errors@) == start + required_errors(req@.take(i as int), es@, path@),
                decreases req.len() - i,
            {
                assert(req@.take(i + 1).drop_last() =~= req@.take(i as int));
                assert(req@.take(i + 1).last() == req@[i as int]);
                if let Json::String(k) = &req[i] {
                    if value.get(k.as_str()).is_none() {
                        let m = concat3(path, ": missing required property `", k.as_str());
                        let mut m = m;
                        push_str(&mut m, "`");
                        push_error(errors, m);
                    }
                }
                i = i + 1;
            }
            assert(req@.take(req@.len() as int) =~= req@);
        }
        let ghost mid = strs(errors@);
        if let Some(Json::Object(props)) = schema.get("properties") {
            let mut i: usize = 0;
            assert(props@.take(0) =~= Seq::<(String, Json)>::empty());
            while i < props.len()
                invariant
                    i <= props@.len(),
                    *value == Json::Object(*es),
                    strs(errors@) == mid + props_errors(*value, props@.take(i as int), path@),
                decreases props.len() - i,
            {
                assert(props@.take(i + 1).drop_last() =~= props@.take(i as int));
                assert(props@.take(i + 1).last() == props@[i as int]);
                let key = props[i].0.as_str();
                if let Some(child) = value.get(key) {
                    proof {
                        lemma_obj_get_member(es@, key@);
                        let j = choose|j: int| 0 <= j < es@.len() && #[trigger] es@[j].1 == *child;
                        assert(decreases_to!(*value => *es));
                        assert(decreases_to!(*es => es@));
                        assert(decreases_to!(es@ => es@[j]));
                        assert(decreases_to!(es@[j] => es@[j].1));
                    }
                    let sub_path = concat3(path, ".", key);
                    let ghost before = strs(errors@);
                    validate_node(&props[i].1, child, sub_path.as_str(), errors);
                    assert(strs(errors@) == before + validate_spec(props@[i as int].1, *child, member_path(path@, key@)));
                }
                i = i + 1;
            }
            assert(props@.take(props@.len() as int) =~= props@);
        }
    }
    let ghost after_obj = strs(errors@);
    if let Json::Array(elems) = value {
        if let Some(items) = schema.get("items") {
            let mut i: usize = 0;
            while i < elems.len()
                invariant
                    i <= elems@.len(),
                    *value == Json::Array(*elems),
                    strs(errors@) == after_obj + items_errors(*value, *items, i as nat, path@),
                decreases elems.len() - i,
            {
                proof {
                    assert(decreases_to!(*value => *elems));
                    assert(decreases_to!(*elems => elems@));
                    assert(decreases_to!(elems@ => elems@[i as int]));
                }
                let mut sub_path = String::new();
                push_str(&mut sub_path, path);
                push_str(&mut sub_path, "[");
                push_decimal(&mut sub_path, i as u64);
                push_str(&mut sub_path, "]");
                assert(sub_path@ =~= item_path(path@, i as nat));
                validate_node(items, &elems[i], sub_path.as_str(), errors);
                i = i + 1;
            }
        }
    }
    proof {
        assert(strs(errors@) =~= strs(old(errors)@) + validate_spec(*schema, *value, path@));
    }
}

// ---------------------------------------------------------------------------
// Laws
// ---------------------------------------------------------------------------

/// The validator reads only the `type`, `required`, `properties` and `items`
/// keywords of a schema: two schemas that agree on those report the same
/// violations for every value.
pub proof fn law_only_known_keywords_matter(s1: Json, s2: Json, value: Json, path: Seq<char>)
    requires
        s1.member("type"@) == s2.member("type"@),
        s1.member("required"@) == s2.member("required"@),
        s1.member("properties"@) == s2.member("properties"@),
        s1.member("items"@) == s2.member("items"@),
    ensures
        validate_spec(s1, value, path) == validate_spec(s2, value, path),
{
}

/// A schema without any of the known keywords accepts every value.
pub proof fn law_keywordless_schema_accepts_all(schema: Json, value: Json, path: Seq<char>)
    requires
        schema.member("type"@) is None,
        schema.member("required"@) is None,
        schema.member("properties"@) is None,
        schema.member("items"@) is None,
    ensures
        validate_spec(schema, value, path) == Seq::<Seq<char>>::empty(),
{
    assert(validate_spec(schema, value, path) =~= Seq::<Seq<char>>::empty());
}

/// A type mismatch short-circuits: it is the one violation reported for
/// that value, and nothing beneath it is checked.
pub proof fn law_type_mismatch_short_circuits(schema: Json, value: Json, path: Seq<char>)
    requires
        schema_type(schema) matches Some(ty) && !type_matches(ty, value),
    ensures
        validate_spec(schema, value, path) == seq![type_error(path, schema_type(schema)->0, value)],
{
}

/// Each schema type name accepts exactly the values of that JSON type:
/// `integer` accepts only numbers, and every integer among them; every
/// value matches the name of its own type.
pub proof fn law_type_names_match_their_json_types(v: Json)
    ensures
        type_matches("object"@, v) <==> v is Object,
        type_matches("array"@, v) <==> v is Array,
        type_matches("string"@, v) <==> v is String,
        type_matches("number"@, v) <==> v is Number,
        type_matches("boolean"@, v) <==> v is Bool,
        type_matches("null"@, v) <==> v is Null,
        type_matches("integer"@, v) ==> v is Number,
        (v matches Json::Number(n) && !(n is Float)) ==> type_matches("integer"@, v),
        type_matches(type_name_of(v), v),
{
    reveal_strlit("object");
    reveal_strlit("array");
    reveal_strlit("string");
    reveal_strlit("number");
    reveal_strlit("integer");
    reveal_strlit("boolean");
    reveal_strlit("null");
    assert("object"@[0] == 'o');
    assert("array"@[0] == 'a');
    assert("string"@[0] == 's');
    assert("number"@[0] == 'n' && "number"@.len() == 6);
    assert("integer"@[0] == 'i');
    assert("boolean"@[0] == 'b');
    assert("null"@[0] == 'n' && "null"@.len() == 4);
}

/// A schema whose only keyword is a type that the value has accepts it:
/// no violation is reported.
pub proof fn law_matching_type_alone_accepts(schema: Json, value: Json, path: Seq<char>)
    requires
        schema_type(schema) matches Some(ty) && type_matches(ty, value),
        schema.member("required"@) is None,
        schema.member("properties"@) is None,
        schema.member("items"@) is None,
    ensures
        validate_spec(schema, value, path) == Seq::<Seq<char>>::empty(),
{
    assert(validate_spec(schema, value, path) =~= Seq::<Seq<char>>::empty());
}

} // verus!
