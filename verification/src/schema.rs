use std::sync::Arc;

use vstd::prelude::*;

use crate::check::{
    check_gives, check_outcome, fail, meets, passed, res_with_ctx, result_view, same_check,
    with_ctx, CheckFn, Outcome,
};
use crate::condition::{
    cond_matches, describe_opposite_spec, same_condition, ConditionValue,
};
use crate::convert::{IntoText, IntoValue};
use crate::error::ValidationError;
use crate::text::{
    append_displays_joined, display_spec, displays, join, repr_spec, sort_by_display,
    sort_values_by_display,
};
use crate::value::{
    copy_values, find_key, lookup, map_insert, map_swap_remove, type_label_spec, values_view, veq, SpecValue,
    Value, ValueMap,
};

verus! {

/// A user-provided callback for `WarnAdditionalKeys`: it receives the
/// additional keys (sorted by their display), the allowed keys, and the map.
#[verifier::external_body]
pub struct WarnCallback {
    f: Arc<dyn Fn(&[Value], &[Value], &ValueMap) + Send + Sync>,
}

impl WarnCallback {
    /// Holds the user's callback (`Arc::new`).
    #[verifier::external_body]
    pub fn new<F>(f: F) -> WarnCallback where
        F: Fn(&[Value], &[Value], &ValueMap) + Send + Sync + 'static,
     {
        WarnCallback { f: Arc::new(f) }
    }

    /// Calls the user's callback; it returns nothing, and what it does is
    /// its own affair.  It is only ever handed the map's additional keys
    /// (some, sorted by their display), the allowed keys, and the map.
    #[verifier::external_body]
    fn call(&self, extra: &[Value], keys: &[Value], dct: &ValueMap)
        requires
            extra@.len() > 0,
            values_view(extra@) == sort_by_display(extra_keys(values_view(keys@), dct@)),
    {
        (self.f)(extra, keys, dct)
    }
}

impl Clone for WarnCallback {
    /// Another handle to the same callback (`Arc::clone`).
    #[verifier::external_body]
    fn clone(&self) -> (r: Self)
        ensures
            r == *self,
    {
        WarnCallback { f: Arc::clone(&self.f) }
    }
}

/// A schema that validates configuration data structures.
pub enum Schema {
    /// Validates a map against a set of validators.
    Dict { object_name: String, id_key: Option<Value>, items: Vec<Validator> },
    /// Validates a list where each element matches a sub-schema.
    Array { of: Box<Schema>, allow_empty: bool },
    /// Validates a homogeneous mapping with typed keys and values matching a schema.
    KeyValueMap { object_name: String, check_key_fn: CheckFn, value_schema: Box<Schema> },
}

/// A validator for a key-value pair within a `Dict` schema.
pub enum Validator {
    Required { key: Value, check_fn: CheckFn },
    RequiredRecurse { key: Value, schema: Schema },
    Optional { key: Value, check_fn: CheckFn, default: Value },
    OptionalRecurse { key: Value, schema: Schema, default: Value },
    OptionalNoDefault { key: Value, check_fn: CheckFn },
    Conditional {
        key: Value,
        check_fn: CheckFn,
        condition_key: Value,
        condition_value: ConditionValue,
        ensure_absent: bool,
    },
    ConditionalOptional {
        key: Value,
        check_fn: CheckFn,
        default: Value,
        condition_key: Value,
        condition_value: ConditionValue,
        ensure_absent: bool,
    },
    ConditionalRecurse {
        key: Value,
        schema: Schema,
        condition_key: Value,
        condition_value: ConditionValue,
        ensure_absent: bool,
    },
    NoAdditionalKeys { keys: Vec<Value> },
    WarnAdditionalKeys { keys: Vec<Value>, callback: WarnCallback },
}

// ---- copies ----

/// `b` is a copy of `a`: the same variant, with the same names, values (by
/// their models) and flags, and copies of the nested schemas, validators and
/// check functions.
pub open spec fn same_schema(a: Schema, b: Schema) -> bool
    decreases a,
{
    match (a, b) {
        (
            Schema::Dict { object_name: n1, id_key: k1, items: i1 },
            Schema::Dict { object_name: n2, id_key: k2, items: i2 },
        ) => n1@ == n2@ && opt_value_view(k1) == opt_value_view(k2) && same_validators(i1@, i2@),
        (Schema::Array { of: o1, allow_empty: e1 }, Schema::Array { of: o2, allow_empty: e2 }) =>
            same_schema(*o1, *o2) && e1 == e2,
        (
            Schema::KeyValueMap { object_name: n1, check_key_fn: c1, value_schema: s1 },
            Schema::KeyValueMap { object_name: n2, check_key_fn: c2, value_schema: s2 },
        ) => n1@ == n2@ && same_check(c1, c2) && same_schema(*s1, *s2),
        _ => false,
    }
}

/// `ys` copies `xs` element by element.
pub open spec fn same_validators(xs: Seq<Validator>, ys: Seq<Validator>) -> bool
    decreases xs,
{
    xs.len() == ys.len() && forall|i: int|
        0 <= i < xs.len() ==> same_validator(#[trigger] xs[i], ys[i])
}

/// `b` is a copy of the validator `a`.
pub open spec fn same_validator(a: Validator, b: Validator) -> bool
    decreases a,
{
    match (a, b) {
        (
            Validator::Required { key: k1, check_fn: c1 },
            Validator::Required { key: k2, check_fn: c2 },
        ) => k1@ == k2@ && same_check(c1, c2),
        (
            Validator::RequiredRecurse { key: k1, schema: s1 },
            Validator::RequiredRecurse { key: k2, schema: s2 },
        ) => k1@ == k2@ && same_schema(s1, s2),
        (
            Validator::Optional { key: k1, check_fn: c1, default: d1 },
            Validator::Optional { key: k2, check_fn: c2, default: d2 },
        ) => k1@ == k2@ && same_check(c1, c2) && d1@ == d2@,
        (
            Validator::OptionalRecurse { key: k1, schema: s1, default: d1 },
            Validator::OptionalRecurse { key: k2, schema: s2, default: d2 },
        ) => k1@ == k2@ && same_schema(s1, s2) && d1@ == d2@,
        (
            Validator::OptionalNoDefault { key: k1, check_fn: c1 },
            Validator::OptionalNoDefault { key: k2, check_fn: c2 },
        ) => k1@ == k2@ && same_check(c1, c2),
        (
            Validator::Conditional {
                key: k1,
                check_fn: c1,
                condition_key: q1,
                condition_value: v1,
                ensure_absent: e1,
            },
            Validator::Conditional {
                key: k2,
                check_fn: c2,
                condition_key: q2,
                condition_value: v2,
                ensure_absent: e2,
            },
        ) => k1@ == k2@ && same_check(c1, c2) && q1@ == q2@ && same_condition(v1, v2) && e1 == e2,
        (
            Validator::ConditionalOptional {
                key: k1,
                check_fn: c1,
                default: d1,
                condition_key: q1,
                condition_value: v1,
                ensure_absent: e1,
            },
            Validator::ConditionalOptional {
                key: k2,
                check_fn: c2,
                default: d2,
                condition_key: q2,
                condition_value: v2,
                ensure_absent: e2,
            },
        ) => k1@ == k2@ && same_check(c1, c2) && d1@ == d2@ && q1@ == q2@ && same_condition(v1, v2)
            && e1 == e2,
        (
            Validator::ConditionalRecurse {
                key: k1,
                schema: s1,
                condition_key: q1,
                condition_value: v1,
                ensure_absent: e1,
            },
            Validator::ConditionalRecurse {
                key: k2,
                schema: s2,
                condition_key: q2,
                condition_value: v2,
                ensure_absent: e2,
            },
        ) => k1@ == k2@ && same_schema(s1, s2) && q1@ == q2@ && same_condition(v1, v2) && e1 == e2,
        (Validator::NoAdditionalKeys { keys: k1 }, Validator::NoAdditionalKeys { keys: k2 }) =>
            values_view(k1@) == values_view(k2@),
        (
            Validator::WarnAdditionalKeys { keys: k1, callback: f1 },
            Validator::WarnAdditionalKeys { keys: k2, callback: f2 },
        ) => values_view(k1@) == values_view(k2@) && f1 == f2,
        _ => false,
    }
}

fn copy_opt_value(o: &Option<Value>) -> (r: Option<Value>)
    ensures
        opt_value_view(r) == opt_value_view(*o),
{
    match o {
        Some(v) => Some(v.clone()),
        None => None,
    }
}

impl Schema {
    /// A copy of the schema.
    pub fn duplicate(&self) -> (r: Schema)
        ensures
            same_schema(*self, r),
        decreases self,
    {
        match self {
            Schema::Dict { object_name, id_key, items } => {
                let mut copy: Vec<Validator> = Vec::new();
                let mut i: usize = 0;
                while i < items.len()
                    invariant
                        0 <= i <= items.len(),
                        *self == (Schema::Dict {
                            object_name: *object_name,
                            id_key: *id_key,
                            items: *items,
                        }),
                        copy@.len() == i,
                        forall|k: int| 0 <= k < i ==> same_validator(items@[k], #[trigger] copy@[k]),
                    decreases items.len() - i,
                {
                    proof {
                        assert(decreases_to!(*self => self->Dict_items@[i as int]));
                    }
                    copy.push(items[i].duplicate());
                    i = i + 1;
                }
                let r = Schema::Dict {
                    object_name: object_name.clone(),
                    id_key: copy_opt_value(id_key),
                    items: copy,
                };
                assert(same_validators(items@, copy@));
                r
            },
            Schema::Array { of, allow_empty } => Schema::Array {
                of: Box::new(of.duplicate()),
                allow_empty: *allow_empty,
            },
            Schema::KeyValueMap { object_name, check_key_fn, value_schema } => Schema::KeyValueMap {
                object_name: object_name.clone(),
                check_key_fn: check_key_fn.duplicate(),
                value_schema: Box::new(value_schema.duplicate()),
            },
        }
    }
}

impl Clone for Schema {
    fn clone(&self) -> (r: Self)
        ensures
            same_schema(*self, r),
    {
        self.duplicate()
    }
}

impl Validator {
    /// A copy of the validator.
    pub fn duplicate(&self) -> (r: Validator)
        ensures
            same_validator(*self, r),
        decreases self,
    {
        match self {
            Validator::Required { key, check_fn } => Validator::Required {
                key: key.clone(),
                check_fn: check_fn.duplicate(),
            },
            Validator::RequiredRecurse { key, schema } => Validator::RequiredRecurse {
                key: key.clone(),
                schema: schema.duplicate(),
            },
            Validator::Optional { key, check_fn, default } => Validator::Optional {
                key: key.clone(),
                check_fn: check_fn.duplicate(),
                default: default.clone(),
            },
            Validator::OptionalRecurse { key, schema, default } => Validator::OptionalRecurse {
                key: key.clone(),
                schema: schema.duplicate(),
                default: default.clone(),
            },
            Validator::OptionalNoDefault { key, check_fn } => Validator::OptionalNoDefault {
                key: key.clone(),
                check_fn: check_fn.duplicate(),
            },
            Validator::Conditional {
                key,
                check_fn,
                condition_key,
                condition_value,
                ensure_absent,
            } => Validator::Conditional {
                key: key.clone(),
                check_fn: check_fn.duplicate(),
                condition_key: condition_key.clone(),
                condition_value: condition_value.duplicate(),
                ensure_absent: *ensure_absent,
            },
            Validator::ConditionalOptional {
                key,
                check_fn,
                default,
                condition_key,
                condition_value,
                ensure_absent,
            } => Validator::ConditionalOptional {
                key: key.clone(),
                check_fn: check_fn.duplicate(),
                default: default.clone(),
                condition_key: condition_key.clone(),
                condition_value: condition_value.duplicate(),
                ensure_absent: *ensure_absent,
            },
            Validator::ConditionalRecurse {
                key,
                schema,
                condition_key,
                condition_value,
                ensure_absent,
            } => Validator::ConditionalRecurse {
                key: key.clone(),
                schema: schema.duplicate(),
                condition_key: condition_key.clone(),
                condition_value: condition_value.duplicate(),
                ensure_absent: *ensure_absent,
            },
            Validator::NoAdditionalKeys { keys } => Validator::NoAdditionalKeys {
                keys: copy_values(keys),
            },
            Validator::WarnAdditionalKeys { keys, callback } => Validator::WarnAdditionalKeys {
                keys: copy_values(keys),
                callback: callback.clone(),
            },
        }
    }
}

impl Clone for Validator {
    fn clone(&self) -> (r: Self)
        ensures
            same_validator(*self, r),
    {
        self.duplicate()
    }
}

// ---- the model: messages ----

/// The entries of a map value; any other value counts as an empty map.
pub open spec fn dict_entries(v: SpecValue) -> Seq<(SpecValue, SpecValue)> {
    match v {
        SpecValue::Dict(d) => d,
        _ => Seq::empty(),
    }
}

/// The elements of a list value; any other value counts as an empty list.
pub open spec fn list_elems(v: SpecValue) -> Seq<SpecValue> {
    match v {
        SpecValue::List(l) => l,
        _ => Seq::empty(),
    }
}

/// The model of an optional value.
pub open spec fn opt_value_view(o: Option<Value>) -> Option<SpecValue> {
    match o {
        Some(v) => Some(v@),
        None => None,
    }
}

/// The name an array schema uses for its elements.
pub open spec fn element_name(s: Schema) -> Seq<char> {
    match s {
        Schema::Dict { object_name, .. } => object_name@,
        Schema::KeyValueMap { object_name, .. } => object_name@,
        _ => "item"@,
    }
}

/// The context of the value under a key.
pub open spec fn key_ctx(key: SpecValue) -> Seq<char> {
    "At key: "@ + display_spec(key)
}

/// The context of a key itself, in a key-value map.
pub open spec fn for_key_ctx(key: SpecValue) -> Seq<char> {
    "For key: "@ + display_spec(key)
}

/// The message for a missing required key.
pub open spec fn missing_key_msg(key: SpecValue) -> Seq<char> {
    "Missing required key: "@ + display_spec(key)
}

/// The message for a value that should be a map.
pub open spec fn not_a_map_msg(name: Seq<char>, v: SpecValue) -> Seq<char> {
    "Expected a "@ + name + " map but got a "@ + type_label_spec(v)
}

/// The message for a value that should be a list.
pub open spec fn not_an_array_msg(v: SpecValue) -> Seq<char> {
    "Expected array but got '"@ + type_label_spec(v) + "'"@
}

/// The message for an empty list where one element at least is needed.
pub open spec fn empty_array_msg(name: Seq<char>) -> Seq<char> {
    "Expected at least 1 '"@ + name + "'"@
}

/// The context of a map schema: its name, and the value of its id key.
pub open spec fn dict_ctx(
    name: Seq<char>,
    id_key: Option<SpecValue>,
    d: Seq<(SpecValue, SpecValue)>,
) -> Seq<char> {
    match id_key {
        Some(k) => "At "@ + name + "("@ + display_spec(k) + "="@ + (match lookup(d, k) {
            Some(v) => repr_spec(v),
            None => "MISSING"@,
        }) + ")"@,
        None => "At "@ + name + "()"@,
    }
}

/// The message for a key that should be absent.
pub open spec fn absent_msg(
    key: SpecValue,
    condition_key: SpecValue,
    c: ConditionValue,
    found: SpecValue,
) -> Seq<char> {
    "Expected "@ + display_spec(key) + " to be absent when "@ + display_spec(condition_key) + " "@
        + describe_opposite_spec(c) + ", found "@ + display_spec(key) + ": "@ + repr_spec(found)
}

/// `keys` holds a key equal to `k` (comparing `k` with each key).
pub open spec fn key_allowed(keys: Seq<SpecValue>, k: SpecValue) -> bool {
    exists|i: int| 0 <= i < keys.len() && veq(k, #[trigger] keys[i])
}

/// The keys of the map that are not allowed, in the map's order.
pub open spec fn extra_keys(keys: Seq<SpecValue>, d: Seq<(SpecValue, SpecValue)>) -> Seq<SpecValue>
    decreases d.len(),
{
    if d.len() == 0 {
        Seq::empty()
    } else {
        let r = extra_keys(keys, d.drop_last());
        if key_allowed(keys, d.last().0) {
            r
        } else {
            r.push(d.last().0)
        }
    }
}

/// The message for keys that are not allowed.
pub open spec fn additional_keys_msg(keys: Seq<SpecValue>, d: Seq<(SpecValue, SpecValue)>) -> Seq<
    char,
> {
    "Additional keys found: "@ + join(displays(sort_by_display(extra_keys(keys, d))), ", "@)
        + ".  Only these keys are allowed: "@ + join(displays(keys), ", "@)
}

// ---- the model: checking ----

/// The outcome of checking the value under `key`, when there is one.
pub open spec fn optional_outcome(key: SpecValue, cf: CheckFn, d: Seq<(SpecValue, SpecValue)>) -> Outcome {
    match lookup(d, key) {
        Some(v) => with_ctx(check_outcome(cf, v), key_ctx(key)),
        None => Some(Ok(())),
    }
}

/// The outcome of checking the value under `key`, which must be there.
pub open spec fn required_outcome(key: SpecValue, cf: CheckFn, d: Seq<(SpecValue, SpecValue)>) -> Outcome {
    if find_key(d, key, 0) is None {
        fail(missing_key_msg(key))
    } else {
        optional_outcome(key, cf, d)
    }
}

/// The outcome of the ensure-absent rule, when a condition does not hold.
pub open spec fn ensure_absent_outcome(
    key: SpecValue,
    condition_key: SpecValue,
    c: ConditionValue,
    ensure_absent: bool,
    d: Seq<(SpecValue, SpecValue)>,
) -> Outcome {
    if ensure_absent && lookup(d, condition_key) is Some && lookup(d, key) is Some {
        fail(absent_msg(key, condition_key, c, lookup(d, key)->0))
    } else {
        Some(Ok(()))
    }
}

/// The outcome of validating a value against a schema.
pub open spec fn schema_outcome(s: Schema, v: SpecValue) -> Outcome
    decreases s, 0nat,
{
    match s {
        Schema::Dict { object_name, id_key, items } => match v {
            SpecValue::Dict(d) => with_ctx(
                items_outcome(items@, d, 0),
                dict_ctx(object_name@, opt_value_view(id_key), d),
            ),
            _ => fail(not_a_map_msg(object_name@, v)),
        },
        Schema::Array { of, allow_empty } => match v {
            SpecValue::List(l) => if !allow_empty && l.len() == 0 {
                fail(empty_array_msg(element_name(*of)))
            } else {
                elems_outcome(*of, l, 0)
            },
            _ => fail(not_an_array_msg(v)),
        },
        Schema::KeyValueMap { object_name, check_key_fn, value_schema } => match v {
            SpecValue::Dict(d) => with_ctx(
                kv_outcome(check_key_fn, *value_schema, d, 0),
                "At "@ + object_name@ + "()"@,
            ),
            _ => fail(not_a_map_msg(object_name@, v)),
        },
    }
}

/// The outcome of the validators from index `i` on: the first failure.
pub open spec fn items_outcome(items: Seq<Validator>, d: Seq<(SpecValue, SpecValue)>, i: nat) -> Outcome
    decreases items, items.len() - i,
{
    if i >= items.len() {
        Some(Ok(()))
    } else {
        match validator_outcome(items[i as int], d) {
            Some(Ok(())) => items_outcome(items, d, i + 1),
            o => o,
        }
    }
}

/// The outcome of the elements from index `i` on: the first failure.
pub open spec fn elems_outcome(of: Schema, l: Seq<SpecValue>, i: nat) -> Outcome
    decreases of, l.len() - i,
{
    if i >= l.len() {
        Some(Ok(()))
    } else {
        match schema_outcome(of, l[i as int]) {
            Some(Ok(())) => elems_outcome(of, l, i + 1),
            o => o,
        }
    }
}

/// The outcome of the entries from index `i` on: for each, its key is checked
/// and then its value; the first failure.
pub open spec fn kv_outcome(
    key_check: CheckFn,
    value_schema: Schema,
    d: Seq<(SpecValue, SpecValue)>,
    i: nat,
) -> Outcome
    decreases value_schema, d.len() - i,
{
    if i >= d.len() {
        Some(Ok(()))
    } else {
        match with_ctx(check_outcome(key_check, d[i as int].0), for_key_ctx(d[i as int].0)) {
            Some(Ok(())) => match with_ctx(
                schema_outcome(value_schema, d[i as int].1),
                key_ctx(d[i as int].0),
            ) {
                Some(Ok(())) => kv_outcome(key_check, value_schema, d, i + 1),
                o => o,
            },
            o => o,
        }
    }
}

/// The outcome of validating the value under `key` against `schema`, when
/// there is one.
pub open spec fn recurse_outcome(key: SpecValue, schema: Schema, d: Seq<(SpecValue, SpecValue)>) -> Outcome
    decreases schema, 1nat,
{
    match lookup(d, key) {
        Some(v) => with_ctx(schema_outcome(schema, v), key_ctx(key)),
        None => Some(Ok(())),
    }
}

/// The outcome of a validator on a map.
pub open spec fn validator_outcome(vd: Validator, d: Seq<(SpecValue, SpecValue)>) -> Outcome
    decreases vd, 0nat,
{
    match vd {
        Validator::Required { key, check_fn } => required_outcome(key@, check_fn, d),
        Validator::RequiredRecurse { key, schema } => if find_key(d, key@, 0) is None {
            fail(missing_key_msg(key@))
        } else {
            recurse_outcome(key@, schema, d)
        },
        Validator::Optional { key, check_fn, .. } => optional_outcome(key@, check_fn, d),
        Validator::OptionalRecurse { key, schema, .. } => recurse_outcome(key@, schema, d),
        Validator::OptionalNoDefault { key, check_fn } => optional_outcome(key@, check_fn, d),
        Validator::Conditional { key, check_fn, condition_key, condition_value, ensure_absent } =>
            if cond_matches(condition_value, lookup(d, condition_key@)) {
            required_outcome(key@, check_fn, d)
        } else {
            ensure_absent_outcome(key@, condition_key@, condition_value, ensure_absent, d)
        },
        Validator::ConditionalOptional {
            key,
            check_fn,
            condition_key,
            condition_value,
            ensure_absent,
            ..
        } => if cond_matches(condition_value, lookup(d, condition_key@)) {
            optional_outcome(key@, check_fn, d)
        } else {
            ensure_absent_outcome(key@, condition_key@, condition_value, ensure_absent, d)
        },
        Validator::ConditionalRecurse { key, schema, condition_key, condition_value, ensure_absent } =>
            if cond_matches(condition_value, lookup(d, condition_key@)) {
            if find_key(d, key@, 0) is None {
                fail(missing_key_msg(key@))
            } else {
                recurse_outcome(key@, schema, d)
            }
        } else {
            ensure_absent_outcome(key@, condition_key@, condition_value, ensure_absent, d)
        },
        Validator::NoAdditionalKeys { keys } => if extra_keys(values_view(keys@), d).len() > 0 {
            fail(additional_keys_msg(values_view(keys@), d))
        } else {
            Some(Ok(()))
        },
        Validator::WarnAdditionalKeys { .. } => Some(Ok(())),
    }
}

// ---- the model: checking, whatever user-provided checks return ----

/// `r` is a result that checking the value under `key`, when there is one,
/// can give: the check's result with the key as context.
pub open spec fn optional_gives(
    key: SpecValue,
    cf: CheckFn,
    d: Seq<(SpecValue, SpecValue)>,
    r: Result<(), Seq<Seq<char>>>,
) -> bool {
    match lookup(d, key) {
        Some(v) => exists|r0: Result<(), Seq<Seq<char>>>|
            #![trigger res_with_ctx(r0, key_ctx(key))]
            check_gives(cf, v, r0) && r == res_with_ctx(r0, key_ctx(key)),
        None => r == Ok::<(), Seq<Seq<char>>>(()),
    }
}

/// As `optional_gives`, for a key that must be there.
pub open spec fn required_gives(
    key: SpecValue,
    cf: CheckFn,
    d: Seq<(SpecValue, SpecValue)>,
    r: Result<(), Seq<Seq<char>>>,
) -> bool {
    if find_key(d, key, 0) is None {
        r == Err::<(), Seq<Seq<char>>>(seq![missing_key_msg(key)])
    } else {
        optional_gives(key, cf, d, r)
    }
}

/// `r` is a result that validating `v` against `s` can give, whatever the
/// user-provided check functions in `s` return.
pub open spec fn schema_gives(s: Schema, v: SpecValue, r: Result<(), Seq<Seq<char>>>) -> bool
    decreases s, 0nat,
{
    match s {
        Schema::Dict { object_name, id_key, items } => match v {
            SpecValue::Dict(d) => exists|r0: Result<(), Seq<Seq<char>>>|
                #![trigger res_with_ctx(r0, dict_ctx(object_name@, opt_value_view(id_key), d))]
                items_gives(items@, d, 0, r0) && r == res_with_ctx(
                    r0,
                    dict_ctx(object_name@, opt_value_view(id_key), d),
                ),
            _ => Some(r) == schema_outcome(s, v),
        },
        Schema::Array { of, allow_empty } => match v {
            SpecValue::List(l) => if !allow_empty && l.len() == 0 {
                Some(r) == schema_outcome(s, v)
            } else {
                elems_gives(*of, l, 0, r)
            },
            _ => Some(r) == schema_outcome(s, v),
        },
        Schema::KeyValueMap { object_name, check_key_fn, value_schema } => match v {
            SpecValue::Dict(d) => exists|r0: Result<(), Seq<Seq<char>>>|
                #![trigger res_with_ctx(r0, "At "@ + object_name@ + "()"@)]
                kv_gives(check_key_fn, *value_schema, d, 0, r0) && r == res_with_ctx(
                    r0,
                    "At "@ + object_name@ + "()"@,
                ),
            _ => Some(r) == schema_outcome(s, v),
        },
    }
}

/// `r` is a result that the validators from index `i` on can give: they run
/// in order, and the first failure is the result.
pub open spec fn items_gives(
    items: Seq<Validator>,
    d: Seq<(SpecValue, SpecValue)>,
    i: nat,
    r: Result<(), Seq<Seq<char>>>,
) -> bool
    decreases items, items.len() - i,
{
    if i >= items.len() {
        r == Ok::<(), Seq<Seq<char>>>(())
    } else {
        exists|r0: Result<(), Seq<Seq<char>>>|
            validator_gives(items[i as int], d, r0) && if #[trigger] passed(r0) {
                items_gives(items, d, i + 1, r)
            } else {
                r == r0
            }
    }
}

/// `r` is a result that the elements from index `i` on can give: the first
/// failure.
pub open spec fn elems_gives(of: Schema, l: Seq<SpecValue>, i: nat, r: Result<(), Seq<Seq<char>>>) -> bool
    decreases of, l.len() - i,
{
    if i >= l.len() {
        r == Ok::<(), Seq<Seq<char>>>(())
    } else {
        exists|r0: Result<(), Seq<Seq<char>>>|
            schema_gives(of, l[i as int], r0) && if #[trigger] passed(r0) {
                elems_gives(of, l, i + 1, r)
            } else {
                r == r0
            }
    }
}

/// `r` is a result that the entries from index `i` on can give: for each,
/// its key is checked and then its value; the first failure.
pub open spec fn kv_gives(
    key_check: CheckFn,
    value_schema: Schema,
    d: Seq<(SpecValue, SpecValue)>,
    i: nat,
    r: Result<(), Seq<Seq<char>>>,
) -> bool
    decreases value_schema, d.len() - i,
{
    if i >= d.len() {
        r == Ok::<(), Seq<Seq<char>>>(())
    } else {
        exists|r0: Result<(), Seq<Seq<char>>>|
            #![trigger res_with_ctx(r0, for_key_ctx(d[i as int].0))]
            check_gives(key_check, d[i as int].0, r0) && if passed(
                res_with_ctx(r0, for_key_ctx(d[i as int].0)),
            ) {
                exists|r1: Result<(), Seq<Seq<char>>>|
                    #![trigger res_with_ctx(r1, key_ctx(d[i as int].0))]
                    schema_gives(value_schema, d[i as int].1, r1) && if passed(
                        res_with_ctx(r1, key_ctx(d[i as int].0)),
                    ) {
                        kv_gives(key_check, value_schema, d, i + 1, r)
                    } else {
                        r == res_with_ctx(r1, key_ctx(d[i as int].0))
                    }
            } else {
                r == res_with_ctx(r0, for_key_ctx(d[i as int].0))
            }
    }
}

/// `r` is a result that validating the value under `key`, when there is
/// one, against `schema` can give, with the key as context.
pub open spec fn recurse_gives(
    key: SpecValue,
    schema: Schema,
    d: Seq<(SpecValue, SpecValue)>,
    r: Result<(), Seq<Seq<char>>>,
) -> bool
    decreases schema, 1nat,
{
    match lookup(d, key) {
        Some(v) => exists|r0: Result<(), Seq<Seq<char>>>|
            #![trigger res_with_ctx(r0, key_ctx(key))]
            schema_gives(schema, v, r0) && r == res_with_ctx(r0, key_ctx(key)),
        None => r == Ok::<(), Seq<Seq<char>>>(()),
    }
}

/// `r` is a result that a validator can give on a map, whatever the
/// user-provided check functions in it return.
pub open spec fn validator_gives(
    vd: Validator,
    d: Seq<(SpecValue, SpecValue)>,
    r: Result<(), Seq<Seq<char>>>,
) -> bool
    decreases vd, 0nat,
{
    match vd {
        Validator::Required { key, check_fn } => required_gives(key@, check_fn, d, r),
        Validator::RequiredRecurse { key, schema } => if find_key(d, key@, 0) is None {
            r == Err::<(), Seq<Seq<char>>>(seq![missing_key_msg(key@)])
        } else {
            recurse_gives(key@, schema, d, r)
        },
        Validator::Optional { key, check_fn, .. } => optional_gives(key@, check_fn, d, r),
        Validator::OptionalRecurse { key, schema, .. } => recurse_gives(key@, schema, d, r),
        Validator::OptionalNoDefault { key, check_fn } => optional_gives(key@, check_fn, d, r),
        Validator::Conditional { key, check_fn, condition_key, condition_value, ensure_absent } =>
            if cond_matches(condition_value, lookup(d, condition_key@)) {
            required_gives(key@, check_fn, d, r)
        } else {
            Some(r) == ensure_absent_outcome(
                key@,
                condition_key@,
                condition_value,
                ensure_absent,
                d,
            )
        },
        Validator::ConditionalOptional {
            key,
            check_fn,
            condition_key,
            condition_value,
            ensure_absent,
            ..
        } => if cond_matches(condition_value, lookup(d, condition_key@)) {
            optional_gives(key@, check_fn, d, r)
        } else {
            Some(r) == ensure_absent_outcome(
                key@,
                condition_key@,
                condition_value,
                ensure_absent,
                d,
            )
        },
        Validator::ConditionalRecurse { key, schema, condition_key, condition_value, ensure_absent } =>
            if cond_matches(condition_value, lookup(d, condition_key@)) {
            if find_key(d, key@, 0) is None {
                r == Err::<(), Seq<Seq<char>>>(seq![missing_key_msg(key@)])
            } else {
                recurse_gives(key@, schema, d, r)
            }
        } else {
            Some(r) == ensure_absent_outcome(
                key@,
                condition_key@,
                condition_value,
                ensure_absent,
                d,
            )
        },
        _ => Some(r) == validator_outcome(vd, d),
    }
}

// ---- the model: defaults ----

/// The value with the schema's defaults applied.
pub open spec fn apply_spec(s: Schema, v: SpecValue) -> SpecValue
    decreases s, 0nat,
{
    match s {
        Schema::Dict { items, .. } => SpecValue::Dict(
            apply_items(items@, dict_entries(v), items@.len()),
        ),
        Schema::Array { of, .. } => SpecValue::List(apply_list(*of, list_elems(v))),
        Schema::KeyValueMap { value_schema, .. } => SpecValue::Dict(
            apply_kv(*value_schema, dict_entries(v)),
        ),
    }
}

/// The map after the first `n` validators applied their defaults, in order.
pub open spec fn apply_items(items: Seq<Validator>, d: Seq<(SpecValue, SpecValue)>, n: nat) -> Seq<
    (SpecValue, SpecValue),
>
    decreases items, n,
{
    if n == 0 || n > items.len() {
        d
    } else {
        validator_apply(items[n - 1], apply_items(items, d, (n - 1) as nat))
    }
}

/// Each element with the schema's defaults applied.
pub open spec fn apply_list(of: Schema, l: Seq<SpecValue>) -> Seq<SpecValue>
    decreases of, 1nat,
{
    Seq::new(
        l.len(),
        |i: int|
            if 0 <= i < l.len() {
                apply_spec(of, l[i])
            } else {
                SpecValue::Null
            },
    )
}

/// Each entry's value with the schema's defaults applied.
pub open spec fn apply_kv(vs: Schema, d: Seq<(SpecValue, SpecValue)>) -> Seq<(SpecValue, SpecValue)>
    decreases vs, 1nat,
{
    Seq::new(
        d.len(),
        |i: int|
            if 0 <= i < d.len() {
                (d[i].0, apply_spec(vs, d[i].1))
            } else {
                (SpecValue::Null, SpecValue::Null)
            },
    )
}

/// The map with the value under `key`, if any, given the schema's defaults.
pub open spec fn recurse_apply(key: SpecValue, schema: Schema, d: Seq<(SpecValue, SpecValue)>) -> Seq<
    (SpecValue, SpecValue),
>
    decreases schema, 1nat,
{
    match lookup(d, key) {
        Some(v) => map_insert(d, key, apply_spec(schema, v)),
        None => d,
    }
}

/// The map with `key` set to `default` when it is missing.
pub open spec fn default_if_missing(
    key: SpecValue,
    default: SpecValue,
    d: Seq<(SpecValue, SpecValue)>,
) -> Seq<(SpecValue, SpecValue)> {
    if find_key(d, key, 0) is None {
        map_insert(d, key, default)
    } else {
        d
    }
}

/// The map after one validator applied its default.
pub open spec fn validator_apply(vd: Validator, d: Seq<(SpecValue, SpecValue)>) -> Seq<
    (SpecValue, SpecValue),
>
    decreases vd, 0nat,
{
    match vd {
        Validator::RequiredRecurse { key, schema } => recurse_apply(key@, schema, d),
        Validator::Optional { key, default, .. } => default_if_missing(key@, default@, d),
        Validator::OptionalRecurse { key, schema, default } => recurse_apply(
            key@,
            schema,
            default_if_missing(key@, default@, d),
        ),
        Validator::ConditionalOptional { key, default, condition_key, condition_value, .. } =>
            if cond_matches(condition_value, lookup(d, condition_key@)) {
            default_if_missing(key@, default@, d)
        } else {
            d
        },
        Validator::ConditionalRecurse { key, schema, condition_key, condition_value, .. } =>
            if cond_matches(condition_value, lookup(d, condition_key@)) {
            recurse_apply(key@, schema, d)
        } else {
            d
        },
        _ => d,
    }
}

/// The value with the values equal to the schema's defaults removed.
pub open spec fn remove_spec(s: Schema, v: SpecValue) -> SpecValue
    decreases s, 0nat,
{
    match s {
        Schema::Dict { items, .. } => SpecValue::Dict(
            remove_items(items@, dict_entries(v), items@.len()),
        ),
        Schema::Array { of, .. } => SpecValue::List(remove_list(*of, list_elems(v))),
        Schema::KeyValueMap { value_schema, .. } => SpecValue::Dict(
            remove_kv(*value_schema, dict_entries(v)),
        ),
    }
}

/// The map after the first `n` validators removed their defaults, in order.
pub open spec fn remove_items(items: Seq<Validator>, d: Seq<(SpecValue, SpecValue)>, n: nat) -> Seq<
    (SpecValue, SpecValue),
>
    decreases items, n,
{
    if n == 0 || n > items.len() {
        d
    } else {
        validator_remove(items[n - 1], remove_items(items, d, (n - 1) as nat))
    }
}

/// Each element with the schema's defaults removed.
pub open spec fn remove_list(of: Schema, l: Seq<SpecValue>) -> Seq<SpecValue>
    decreases of, 1nat,
{
    Seq::new(
        l.len(),
        |i: int|
            if 0 <= i < l.len() {
                remove_spec(of, l[i])
            } else {
                SpecValue::Null
            },
    )
}

/// Each entry's value with the schema's defaults removed.
pub open spec fn remove_kv(vs: Schema, d: Seq<(SpecValue, SpecValue)>) -> Seq<(SpecValue, SpecValue)>
    decreases vs, 1nat,
{
    Seq::new(
        d.len(),
        |i: int|
            if 0 <= i < d.len() {
                (d[i].0, remove_spec(vs, d[i].1))
            } else {
                (SpecValue::Null, SpecValue::Null)
            },
    )
}

/// The map with the value under `key`, if any, rid of the schema's defaults.
pub open spec fn recurse_remove(key: SpecValue, schema: Schema, d: Seq<(SpecValue, SpecValue)>) -> Seq<
    (SpecValue, SpecValue),
>
    decreases schema, 1nat,
{
    match lookup(d, key) {
        Some(v) => map_insert(d, key, remove_spec(schema, v)),
        None => d,
    }
}

/// The map without `key` when its value equals `default`.
pub open spec fn drop_if_default(
    key: SpecValue,
    default: SpecValue,
    d: Seq<(SpecValue, SpecValue)>,
) -> Seq<(SpecValue, SpecValue)> {
    match lookup(d, key) {
        Some(v) => if veq(v, default) {
            map_swap_remove(d, key)
        } else {
            d
        },
        None => d,
    }
}

/// The map after one validator removed its default.
pub open spec fn validator_remove(vd: Validator, d: Seq<(SpecValue, SpecValue)>) -> Seq<
    (SpecValue, SpecValue),
>
    decreases vd, 0nat,
{
    match vd {
        Validator::RequiredRecurse { key, schema } => recurse_remove(key@, schema, d),
        Validator::Optional { key, default, .. } => drop_if_default(key@, default@, d),
        Validator::OptionalRecurse { key, schema, default } => if find_key(d, key@, 0) is Some {
            drop_if_default(key@, default@, recurse_remove(key@, schema, d))
        } else {
            d
        },
        Validator::ConditionalOptional { key, default, condition_key, condition_value, .. } =>
            if cond_matches(condition_value, lookup(d, condition_key@)) {
            drop_if_default(key@, default@, d)
        } else {
            d
        },
        Validator::ConditionalRecurse { key, schema, condition_key, condition_value, .. } =>
            if cond_matches(condition_value, lookup(d, condition_key@)) {
            recurse_remove(key@, schema, d)
        } else {
            d
        },
        _ => d,
    }
}

// ---- executable checking ----

fn key_context(key: &Value) -> (r: String)
    ensures
        r@ == key_ctx(key@),
{
    let mut c = String::new();
    c.append("At key: ");
    key.append_display(&mut c);
    assert(c@ =~= key_ctx(key@));
    c
}

fn missing_key_error(key: &Value) -> (r: ValidationError)
    ensures
        r@ == seq![missing_key_msg(key@)],
{
    let mut m = String::new();
    m.append("Missing required key: ");
    key.append_display(&mut m);
    assert(m@ =~= missing_key_msg(key@));
    ValidationError::leaf(m)
}

fn not_a_map_error(name: &String, value: &Value) -> (r: ValidationError)
    ensures
        r@ == seq![not_a_map_msg(name@, value@)],
{
    let mut m = String::new();
    m.append("Expected a ");
    m.append(name.as_str());
    m.append(" map but got a ");
    m.append(value.type_label());
    assert(m@ =~= not_a_map_msg(name@, value@));
    ValidationError::leaf(m)
}

fn dict_context(name: &String, id_key: &Option<Value>, dct: &ValueMap) -> (r: String)
    ensures
        r@ == dict_ctx(name@, opt_value_view(*id_key), dct@),
{
    let mut c = String::new();
    c.append("At ");
    c.append(name.as_str());
    match id_key {
        Some(k) => {
            c.append("(");
            k.append_display(&mut c);
            c.append("=");
            match dct.get(k) {
                Some(v) => v.append_repr(&mut c),
                None => c.append("MISSING"),
            }
            c.append(")");
        },
        None => {
            c.append("()");
        },
    }
    assert(c@ =~= dict_ctx(name@, opt_value_view(*id_key), dct@));
    c
}

fn check_optional(key: &Value, check_fn: &CheckFn, dct: &ValueMap) -> (r: Result<(), ValidationError>)
    ensures
        meets(optional_outcome(key@, *check_fn, dct@), r),
        optional_gives(key@, *check_fn, dct@, result_view(r)),
{
    match dct.get(key) {
        Some(val) => {
            let r0 = check_fn.check(val);
            let r = match r0 {
                Ok(()) => Ok(()),
                Err(e) => Err(e.wrap(key_context(key))),
            };
            proof {
                assert(res_with_ctx(result_view(r0), key_ctx(key@)) == result_view(r));
            }
            r
        },
        None => Ok(()),
    }
}

fn check_required(key: &Value, check_fn: &CheckFn, dct: &ValueMap) -> (r: Result<(), ValidationError>)
    ensures
        meets(required_outcome(key@, *check_fn, dct@), r),
        required_gives(key@, *check_fn, dct@, result_view(r)),
{
    if !dct.contains_key(key) {
        return Err(missing_key_error(key));
    }
    check_optional(key, check_fn, dct)
}

fn check_ensure_absent(
    key: &Value,
    condition_key: &Value,
    condition_value: &ConditionValue,
    ensure_absent: bool,
    dct: &ValueMap,
) -> (r: Result<(), ValidationError>)
    ensures
        meets(ensure_absent_outcome(key@, condition_key@, *condition_value, ensure_absent, dct@), r),
        Some(result_view(r)) == ensure_absent_outcome(
            key@,
            condition_key@,
            *condition_value,
            ensure_absent,
            dct@,
        ),
{
    if ensure_absent && dct.contains_key(condition_key) {
        match dct.get(key) {
            Some(found) => {
                let mut m = String::new();
                m.append("Expected ");
                key.append_display(&mut m);
                m.append(" to be absent when ");
                condition_key.append_display(&mut m);
                m.append(" ");
                m.append(condition_value.describe_opposite().as_str());
                m.append(", found ");
                key.append_display(&mut m);
                m.append(": ");
                found.append_repr(&mut m);
                assert(m@ =~= absent_msg(key@, condition_key@, *condition_value, found@));
                return Err(ValidationError::leaf(m));
            },
            None => {},
        }
    }
    Ok(())
}

fn key_allowed_exec(keys: &Vec<Value>, k: &Value) -> (r: bool)
    ensures
        r == key_allowed(values_view(keys@), k@),
{
    let mut j: usize = 0;
    while j < keys.len()
        invariant
            0 <= j <= keys.len(),
            forall|q: int| 0 <= q < j ==> !veq(k@, #[trigger] values_view(keys@)[q]),
        decreases keys.len() - j,
    {
        proof {
            assert(values_view(keys@)[j as int] == keys@[j as int]@);
        }
        if *k == keys[j] {
            return true;
        }
        j = j + 1;
    }
    false
}

/// The keys of the map that `keys` does not allow, in the map's order.
fn additional_keys(keys: &Vec<Value>, dct: &ValueMap) -> (r: Vec<Value>)
    ensures
        values_view(r@) == extra_keys(values_view(keys@), dct@),
{
    let mut extra: Vec<Value> = Vec::new();
    let mut i: usize = 0;
    while i < dct.len()
        invariant
            0 <= i <= dct@.len(),
            values_view(extra@) == extra_keys(values_view(keys@), dct@.take(i as int)),
        decreases dct@.len() - i,
    {
        proof {
            assert(dct@.take(i as int + 1).drop_last() =~= dct@.take(i as int));
        }
        match dct.get_index(i) {
            Some((k, _)) => {
                if !key_allowed_exec(keys, k) {
                    extra.push(k.deep_copy());
                }
                assert(values_view(extra@) =~= extra_keys(
                    values_view(keys@),
                    dct@.take(i as int + 1),
                ));
            },
            None => {},
        }
        i = i + 1;
    }
    assert(dct@.take(dct@.len() as int) =~= dct@);
    extra
}

fn additional_keys_error(keys: &Vec<Value>, dct: &ValueMap, extra: &Vec<Value>) -> (r: ValidationError)
    requires
        values_view(extra@) == extra_keys(values_view(keys@), dct@),
    ensures
        r@ == seq![additional_keys_msg(values_view(keys@), dct@)],
{
    let sorted = sort_values_by_display(extra);
    let mut m = String::new();
    m.append("Additional keys found: ");
    append_displays_joined(&mut m, &sorted, ", ");
    m.append(".  Only these keys are allowed: ");
    append_displays_joined(&mut m, keys, ", ");
    assert(m@ =~= additional_keys_msg(values_view(keys@), dct@));
    ValidationError::leaf(m)
}

impl Schema {
    /// Validate a value against this schema.
    pub fn check(&self, value: &Value) -> (r: Result<(), ValidationError>)
        ensures
            meets(schema_outcome(*self, value@), r),
            schema_gives(*self, value@, result_view(r)),
        decreases self, 0nat,
    {
        match self {
            Schema::Dict { object_name, id_key, items } => {
                let dct = match value {
                    Value::Dict(m) => m,
                    _ => {
                        return Err(not_a_map_error(object_name, value));
                    },
                };
                proof {
                    let ghost its = self->items;
                    assert(decreases_to!(*self => its));
                }
                let r0 = check_items(items, dct);
                let r = match r0 {
                    Ok(()) => Ok(()),
                    Err(e) => Err(e.wrap(dict_context(object_name, id_key, dct))),
                };
                proof {
                    assert(res_with_ctx(
                        result_view(r0),
                        dict_ctx(object_name@, opt_value_view(*id_key), dct@),
                    ) == result_view(r));
                }
                r
            },
            Schema::Array { of, allow_empty } => {
                let list = match value {
                    Value::List(l) => l,
                    _ => {
                        let mut m = String::new();
                        m.append("Expected array but got '");
                        m.append(value.type_label());
                        m.append("'");
                        assert(m@ =~= not_an_array_msg(value@));
                        return Err(ValidationError::leaf(m));
                    },
                };
                if !*allow_empty && list.len() == 0 {
                    let name = match &**of {
                        Schema::Dict { object_name, .. } => object_name.as_str(),
                        Schema::KeyValueMap { object_name, .. } => object_name.as_str(),
                        _ => "item",
                    };
                    let mut m = String::new();
                    m.append("Expected at least 1 '");
                    m.append(name);
                    m.append("'");
                    assert(m@ =~= empty_array_msg(element_name(**of)));
                    return Err(ValidationError::leaf(m));
                }
                let ghost l = value@->List_0;
                let mut i: usize = 0;
                while i < list.len()
                    invariant
                        0 <= i <= list.len(),
                        *value == Value::List(*list),
                        *self == (Schema::Array { of: *of, allow_empty: *allow_empty }),
                        l == value@->List_0,
                        l.len() == list@.len(),
                        elems_outcome(**of, l, 0) == elems_outcome(**of, l, i as nat)
                            || elems_outcome(**of, l, 0) is None,
                        forall|res: Result<(), Seq<Seq<char>>>|
                            #[trigger] elems_gives(**of, l, i as nat, res) ==> elems_gives(
                                **of,
                                l,
                                0,
                                res,
                            ),
                    decreases list.len() - i,
                {
                    proof {
                        assert(l[i as int] == list@[i as int]@);
                    }
                    let r0 = of.check(&list[i]);
                    proof {
                        let v0 = result_view(r0);
                        assert(schema_gives(**of, l[i as int], v0));
                        if passed(v0) {
                            assert forall|res: Result<(), Seq<Seq<char>>>|
                                #[trigger] elems_gives(**of, l, (i + 1) as nat, res) implies elems_gives(
                                **of,
                                l,
                                0,
                                res,
                            ) by {
                                assert(elems_gives(**of, l, i as nat, res));
                            }
                        } else {
                            assert(elems_gives(**of, l, i as nat, v0));
                        }
                    }
                    match r0 {
                        Ok(()) => {},
                        Err(e) => {
                            return Err(e);
                        },
                    }
                    i = i + 1;
                }
                proof {
                    assert(elems_gives(**of, l, i as nat, Ok(())));
                }
                Ok(())
            },
            Schema::KeyValueMap { object_name, check_key_fn, value_schema } => {
                let dct = match value {
                    Value::Dict(m) => m,
                    _ => {
                        return Err(not_a_map_error(object_name, value));
                    },
                };
                let ghost d = dct@;
                let mut i: usize = 0;
                while i < dct.len()
                    invariant
                        0 <= i <= d.len(),
                        d == dct@,
                        *value == Value::Dict(*dct),
                        *self == (Schema::KeyValueMap {
                            object_name: *object_name,
                            check_key_fn: *check_key_fn,
                            value_schema: *value_schema,
                        }),
                        kv_outcome(*check_key_fn, **value_schema, d, 0) == kv_outcome(
                            *check_key_fn,
                            **value_schema,
                            d,
                            i as nat,
                        ) || kv_outcome(*check_key_fn, **value_schema, d, 0) is None,
                        forall|res: Result<(), Seq<Seq<char>>>|
                            #[trigger] kv_gives(*check_key_fn, **value_schema, d, i as nat, res)
                                ==> kv_gives(*check_key_fn, **value_schema, d, 0, res),
                    decreases d.len() - i,
                {
                    match dct.get_index(i) {
                        Some((k, val)) => {
                            let kr = check_key_fn.check(k);
                            match kr {
                                Ok(()) => {},
                                Err(e) => {
                                    let mut c = String::new();
                                    c.append("For key: ");
                                    k.append_display(&mut c);
                                    assert(c@ =~= for_key_ctx(k@));
                                    let e2 = e.wrap(c);
                                    proof {
                                        let o = check_outcome(*check_key_fn, d[i as int].0);
                                        if o is Some {
                                            assert(o == Some(Err::<(), Seq<Seq<char>>>(e@)));
                                            assert(kv_outcome(*check_key_fn, **value_schema, d, i as nat) == with_ctx(o, c@));
                                        }
                                        let r0 = result_view(kr);
                                        assert(res_with_ctx(r0, for_key_ctx(d[i as int].0)) == Err::<(), Seq<Seq<char>>>(e2@));
                                        assert(!passed(res_with_ctx(r0, for_key_ctx(d[i as int].0))));
                                        assert(kv_gives(*check_key_fn, **value_schema, d, i as nat, Err(e2@)));
                                    }
                                    let mut outer = String::new();
                                    outer.append("At ");
                                    outer.append(object_name.as_str());
                                    outer.append("()");
                                    assert(outer@ =~= "At "@ + object_name@ + "()"@);
                                    let res = e2.wrap(outer);
                                    proof {
                                        let r0 = Err::<(), Seq<Seq<char>>>(e2@);
                                        assert(kv_gives(*check_key_fn, **value_schema, d, 0, r0));
                                        assert(res_with_ctx(r0, "At "@ + object_name@ + "()"@) == Err::<(), Seq<Seq<char>>>(res@));
                                    }
                                    return Err(res);
                                },
                            }
                            let vr = value_schema.check(val);
                            match vr {
                                Ok(()) => {},
                                Err(e) => {
                                    let kc = key_context(k);
                                    let e2 = e.wrap(kc);
                                    proof {
                                        let o = schema_outcome(**value_schema, d[i as int].1);
                                        let ko = check_outcome(*check_key_fn, d[i as int].0);
                                        if ko is None {
                                            assert(kv_outcome(*check_key_fn, **value_schema, d, i as nat) is None);
                                        } else if o is Some {
                                            assert(ko == Some(Ok::<(), Seq<Seq<char>>>(())));
                                            assert(with_ctx(ko, for_key_ctx(d[i as int].0)) == Some(Ok::<(), Seq<Seq<char>>>(())));
                                            assert(o == Some(Err::<(), Seq<Seq<char>>>(e@)));
                                            assert(kv_outcome(*check_key_fn, **value_schema, d, i as nat) == with_ctx(o, kc@));
                                        }
                                        let r0 = result_view(kr);
                                        let r1 = result_view(vr);
                                        assert(passed(res_with_ctx(r0, for_key_ctx(d[i as int].0))));
                                        assert(res_with_ctx(r1, key_ctx(d[i as int].0)) == Err::<(), Seq<Seq<char>>>(e2@));
                                        assert(!passed(res_with_ctx(r1, key_ctx(d[i as int].0))));
                                        assert(kv_gives(*check_key_fn, **value_schema, d, i as nat, Err(e2@)));
                                    }
                                    let mut outer = String::new();
                                    outer.append("At ");
                                    outer.append(object_name.as_str());
                                    outer.append("()");
                                    assert(outer@ =~= "At "@ + object_name@ + "()"@);
                                    let res = e2.wrap(outer);
                                    proof {
                                        let r0 = Err::<(), Seq<Seq<char>>>(e2@);
                                        assert(kv_gives(*check_key_fn, **value_schema, d, 0, r0));
                                        assert(res_with_ctx(r0, "At "@ + object_name@ + "()"@) == Err::<(), Seq<Seq<char>>>(res@));
                                    }
                                    return Err(res);
                                },
                            }
                            proof {
                                let r0 = result_view(kr);
                                let r1 = result_view(vr);
                                assert(passed(res_with_ctx(r0, for_key_ctx(d[i as int].0))));
                                assert(passed(res_with_ctx(r1, key_ctx(d[i as int].0))));
                                assert forall|res: Result<(), Seq<Seq<char>>>|
                                    #[trigger] kv_gives(*check_key_fn, **value_schema, d, (i + 1) as nat, res)
                                    implies kv_gives(*check_key_fn, **value_schema, d, 0, res) by {
                                    assert(kv_gives(*check_key_fn, **value_schema, d, i as nat, res));
                                }
                            }
                        },
                        None => {},
                    }
                    i = i + 1;
                }
                proof {
                    let r0 = Ok::<(), Seq<Seq<char>>>(());
                    assert(kv_gives(*check_key_fn, **value_schema, d, i as nat, r0));
                    assert(res_with_ctx(r0, "At "@ + object_name@ + "()"@) == r0);
                }
                Ok(())
            },
        }
    }
}

impl Validator {
    /// Validate the given map against this validator.
    pub fn check(&self, dct: &ValueMap) -> (r: Result<(), ValidationError>)
        ensures
            meets(validator_outcome(*self, dct@), r),
            validator_gives(*self, dct@, result_view(r)),
        decreases self, 0nat,
    {
        match self {
            Validator::Required { key, check_fn } => check_required(key, check_fn, dct),
            Validator::RequiredRecurse { key, schema } => {
                if !dct.contains_key(key) {
                    return Err(missing_key_error(key));
                }
                check_recurse(key, schema, dct)
            },
            Validator::Optional { key, check_fn, .. } => check_optional(key, check_fn, dct),
            Validator::OptionalRecurse { key, schema, .. } => check_recurse(key, schema, dct),
            Validator::OptionalNoDefault { key, check_fn } => check_optional(key, check_fn, dct),
            Validator::Conditional { key, check_fn, condition_key, condition_value, ensure_absent } => {
                if condition_value.matches(dct.get(condition_key)) {
                    check_required(key, check_fn, dct)
                } else {
                    check_ensure_absent(key, condition_key, condition_value, *ensure_absent, dct)
                }
            },
            Validator::ConditionalOptional {
                key,
                check_fn,
                condition_key,
                condition_value,
                ensure_absent,
                ..
            } => {
                if condition_value.matches(dct.get(condition_key)) {
                    check_optional(key, check_fn, dct)
                } else {
                    check_ensure_absent(key, condition_key, condition_value, *ensure_absent, dct)
                }
            },
            Validator::ConditionalRecurse {
                key,
                schema,
                condition_key,
                condition_value,
                ensure_absent,
            } => {
                if condition_value.matches(dct.get(condition_key)) {
                    if !dct.contains_key(key) {
                        return Err(missing_key_error(key));
                    }
                    check_recurse(key, schema, dct)
                } else {
                    check_ensure_absent(key, condition_key, condition_value, *ensure_absent, dct)
                }
            },
            Validator::NoAdditionalKeys { keys } => {
                let extra = additional_keys(keys, dct);
                if extra.len() > 0 {
                    return Err(additional_keys_error(keys, dct, &extra));
                }
                Ok(())
            },
            Validator::WarnAdditionalKeys { keys, callback } => {
                let extra = additional_keys(keys, dct);
                let sorted = sort_values_by_display(&extra);
                if sorted.len() > 0 {
                    callback.call(sorted.as_slice(), keys.as_slice(), dct);
                }
                Ok(())
            },
        }
    }
}

fn check_items(items: &Vec<Validator>, dct: &ValueMap) -> (r: Result<(), ValidationError>)
    ensures
        meets(items_outcome(items@, dct@, 0), r),
        items_gives(items@, dct@, 0, result_view(r)),
    decreases items, 1nat,
{
    let ghost d = dct@;
    let mut i: usize = 0;
    while i < items.len()
        invariant
            0 <= i <= items.len(),
            d == dct@,
            items_outcome(items@, d, 0) == items_outcome(items@, d, i as nat)
                || items_outcome(items@, d, 0) is None,
            forall|res: Result<(), Seq<Seq<char>>>|
                #[trigger] items_gives(items@, d, i as nat, res) ==> items_gives(items@, d, 0, res),
        decreases items.len() - i,
    {
        proof {
            assert(decreases_to!(*items => items@));
            assert(decreases_to!(items@ => items@[i as int]));
        }
        let r0 = items[i].check(dct);
        proof {
            let v0 = result_view(r0);
            assert(validator_gives(items@[i as int], d, v0));
            if passed(v0) {
                assert forall|res: Result<(), Seq<Seq<char>>>|
                    #[trigger] items_gives(items@, d, (i + 1) as nat, res) implies items_gives(
                    items@,
                    d,
                    0,
                    res,
                ) by {
                    assert(items_gives(items@, d, i as nat, res));
                }
            } else {
                assert(items_gives(items@, d, i as nat, v0));
            }
        }
        match r0 {
            Ok(()) => {},
            Err(e) => {
                return Err(e);
            },
        }
        i = i + 1;
    }
    proof {
        assert(items_gives(items@, d, i as nat, Ok(())));
    }
    Ok(())
}

fn check_recurse(key: &Value, schema: &Schema, dct: &ValueMap) -> (r: Result<(), ValidationError>)
    ensures
        meets(recurse_outcome(key@, *schema, dct@), r),
        recurse_gives(key@, *schema, dct@, result_view(r)),
    decreases schema, 1nat,
{
    match dct.get(key) {
        Some(val) => {
            let r0 = schema.check(val);
            let r = match r0 {
                Ok(()) => Ok(()),
                Err(e) => Err(e.wrap(key_context(key))),
            };
            proof {
                assert(res_with_ctx(result_view(r0), key_ctx(key@)) == result_view(r));
            }
            r
        },
        None => Ok(()),
    }
}

// ---- executable defaults ----

impl Schema {
    /// Apply defaults to a value according to this schema.
    /// Returns a new value — does not mutate the input.
    pub fn apply_defaults(&self, value: &Value) -> (r: Value)
        ensures
            r@ == apply_spec(*self, value@),
        decreases self, 0nat,
    {
        match self {
            Schema::Dict { items, .. } => {
                let mut dct = match value {
                    Value::Dict(m) => m.deep_copy(),
                    _ => ValueMap::new(),
                };
                proof {
                    let ghost its = self->items;
                    assert(decreases_to!(*self => its));
                }
                apply_items_exec(items, &mut dct);
                Value::Dict(dct)
            },
            Schema::Array { of, .. } => {
                let ghost l = list_elems(value@);
                let mut out: Vec<Value> = Vec::new();
                match value {
                    Value::List(list) => {
                        let mut i: usize = 0;
                        while i < list.len()
                            invariant
                                0 <= i <= list.len(),
                                *value == Value::List(*list),
                                *self == (Schema::Array { of: *of, allow_empty: self->allow_empty }),
                                l == value@->List_0,
                                l.len() == list@.len(),
                                out@.len() == i,
                                forall|k: int|
                                    0 <= k < i ==> (#[trigger] out@[k])@ == apply_spec(**of, l[k]),
                            decreases list.len() - i,
                        {
                            proof {
                                assert(l[i as int] == list@[i as int]@);
                            }
                            proof {
                                let ghost o = self->of;
                                assert(decreases_to!(*self => o));
                            }
                            let nv = of.apply_defaults(&list[i]);
                            out.push(nv);
                            i = i + 1;
                        }
                    },
                    _ => {},
                }
                let r = Value::List(out);
                assert(r@->List_0 =~= apply_list(**of, l));
                r
            },
            Schema::KeyValueMap { value_schema, .. } => {
                let ghost d = dict_entries(value@);
                let mut out = ValueMap::new();
                match value {
                    Value::Dict(m) => {
                        let mut i: usize = 0;
                        while i < m.len()
                            invariant
                                0 <= i <= m@.len(),
                                *value == Value::Dict(*m),
                                *self == (Schema::KeyValueMap {
                                    object_name: self->KeyValueMap_object_name,
                                    check_key_fn: self->check_key_fn,
                                    value_schema: *value_schema,
                                }),
                                d == m@,
                                out@ == apply_kv(**value_schema, d.take(i as int)),
                            decreases m@.len() - i,
                        {
                            match m.get_index(i) {
                                Some((k, v)) => {
                                    proof {
                                        let ghost o = self->value_schema;
                                        assert(decreases_to!(*self => o));
                                    }
                                    let nv = value_schema.apply_defaults(v);
                                    out.push_entry(k.deep_copy(), nv);
                                },
                                None => {},
                            }
                            i = i + 1;
                            assert(out@ =~= apply_kv(**value_schema, d.take(i as int)));
                        }
                        assert(d.take(m@.len() as int) =~= d);
                    },
                    _ => {
                        assert(apply_kv(**value_schema, d) =~= out@);
                    },
                }
                Value::Dict(out)
            },
        }
    }

    /// Remove defaults from a value according to this schema.
    /// Returns a new value — does not mutate the input.
    pub fn remove_defaults(&self, value: &Value) -> (r: Value)
        ensures
            r@ == remove_spec(*self, value@),
        decreases self, 0nat,
    {
        match self {
            Schema::Dict { items, .. } => {
                let mut dct = match value {
                    Value::Dict(m) => m.deep_copy(),
                    _ => ValueMap::new(),
                };
                proof {
                    let ghost its = self->items;
                    assert(decreases_to!(*self => its));
                }
                remove_items_exec(items, &mut dct);
                Value::Dict(dct)
            },
            Schema::Array { of, .. } => {
                let ghost l = list_elems(value@);
                let mut out: Vec<Value> = Vec::new();
                match value {
                    Value::List(list) => {
                        let mut i: usize = 0;
                        while i < list.len()
                            invariant
                                0 <= i <= list.len(),
                                *value == Value::List(*list),
                                *self == (Schema::Array { of: *of, allow_empty: self->allow_empty }),
                                l == value@->List_0,
                                l.len() == list@.len(),
                                out@.len() == i,
                                forall|k: int|
                                    0 <= k < i ==> (#[trigger] out@[k])@ == remove_spec(**of, l[k]),
                            decreases list.len() - i,
                        {
                            proof {
                                assert(l[i as int] == list@[i as int]@);
                            }
                            proof {
                                let ghost o = self->of;
                                assert(decreases_to!(*self => o));
                            }
                            let nv = of.remove_defaults(&list[i]);
                            out.push(nv);
                            i = i + 1;
                        }
                    },
                    _ => {},
                }
                let r = Value::List(out);
                assert(r@->List_0 =~= remove_list(**of, l));
                r
            },
            Schema::KeyValueMap { value_schema, .. } => {
                let ghost d = dict_entries(value@);
                let mut out = ValueMap::new();
                match value {
                    Value::Dict(m) => {
                        let mut i: usize = 0;
                        while i < m.len()
                            invariant
                                0 <= i <= m@.len(),
                                *value == Value::Dict(*m),
                                *self == (Schema::KeyValueMap {
                                    object_name: self->KeyValueMap_object_name,
                                    check_key_fn: self->check_key_fn,
                                    value_schema: *value_schema,
                                }),
                                d == m@,
                                out@ == remove_kv(**value_schema, d.take(i as int)),
                            decreases m@.len() - i,
                        {
                            match m.get_index(i) {
                                Some((k, v)) => {
                                    proof {
                                        let ghost o = self->value_schema;
                                        assert(decreases_to!(*self => o));
                                    }
                                    let nv = value_schema.remove_defaults(v);
                                    out.push_entry(k.deep_copy(), nv);
                                },
                                None => {},
                            }
                            i = i + 1;
                            assert(out@ =~= remove_kv(**value_schema, d.take(i as int)));
                        }
                        assert(d.take(m@.len() as int) =~= d);
                    },
                    _ => {
                        assert(remove_kv(**value_schema, d) =~= out@);
                    },
                }
                Value::Dict(out)
            },
        }
    }
}

fn apply_items_exec(items: &Vec<Validator>, dct: &mut ValueMap)
    ensures
        final(dct)@ == apply_items(items@, old(dct)@, items@.len()),
    decreases items, 1nat,
{
    let ghost d0 = dct@;
    let mut i: usize = 0;
    while i < items.len()
        invariant
            0 <= i <= items.len(),
            dct@ == apply_items(items@, d0, i as nat),
        decreases items.len() - i,
    {
        proof {
            assert(decreases_to!(*items => items@));
            assert(decreases_to!(items@ => items@[i as int]));
        }
        items[i].apply_default(dct);
        i = i + 1;
    }
}

fn remove_items_exec(items: &Vec<Validator>, dct: &mut ValueMap)
    ensures
        final(dct)@ == remove_items(items@, old(dct)@, items@.len()),
    decreases items, 1nat,
{
    let ghost d0 = dct@;
    let mut i: usize = 0;
    while i < items.len()
        invariant
            0 <= i <= items.len(),
            dct@ == remove_items(items@, d0, i as nat),
        decreases items.len() - i,
    {
        proof {
            assert(decreases_to!(*items => items@));
            assert(decreases_to!(items@ => items@[i as int]));
        }
        items[i].remove_default(dct);
        i = i + 1;
    }
}

fn apply_recurse(key: &Value, schema: &Schema, dct: &mut ValueMap)
    ensures
        final(dct)@ == recurse_apply(key@, *schema, old(dct)@),
    decreases schema, 1nat,
{
    let nv = match dct.get(key) {
        Some(val) => Some(schema.apply_defaults(val)),
        None => None,
    };
    match nv {
        Some(nv) => {
            dct.insert(key.deep_copy(), nv);
        },
        None => {},
    }
}

fn remove_recurse(key: &Value, schema: &Schema, dct: &mut ValueMap)
    ensures
        final(dct)@ == recurse_remove(key@, *schema, old(dct)@),
    decreases schema, 1nat,
{
    let nv = match dct.get(key) {
        Some(val) => Some(schema.remove_defaults(val)),
        None => None,
    };
    match nv {
        Some(nv) => {
            dct.insert(key.deep_copy(), nv);
        },
        None => {},
    }
}

fn set_default_if_missing(key: &Value, default: &Value, dct: &mut ValueMap)
    ensures
        final(dct)@ == default_if_missing(key@, default@, old(dct)@),
{
    if !dct.contains_key(key) {
        dct.insert(key.deep_copy(), default.deep_copy());
    }
}

fn drop_default(key: &Value, default: &Value, dct: &mut ValueMap)
    ensures
        final(dct)@ == drop_if_default(key@, default@, old(dct)@),
{
    let at_default = match dct.get(key) {
        Some(v) => *v == *default,
        None => false,
    };
    if at_default {
        dct.swap_remove(key);
    }
}

impl Validator {
    /// Apply defaults for this validator to the given map (mutates in place).
    pub fn apply_default(&self, dct: &mut ValueMap)
        ensures
            final(dct)@ == validator_apply(*self, old(dct)@),
        decreases self, 0nat,
    {
        match self {
            Validator::RequiredRecurse { key, schema } => apply_recurse(key, schema, dct),
            Validator::Optional { key, default, .. } => set_default_if_missing(key, default, dct),
            Validator::OptionalRecurse { key, schema, default } => {
                set_default_if_missing(key, default, dct);
                apply_recurse(key, schema, dct);
            },
            Validator::ConditionalOptional { key, default, condition_key, condition_value, .. } => {
                if condition_value.matches(dct.get(condition_key)) {
                    set_default_if_missing(key, default, dct);
                }
            },
            Validator::ConditionalRecurse { key, schema, condition_key, condition_value, .. } => {
                if condition_value.matches(dct.get(condition_key)) {
                    apply_recurse(key, schema, dct);
                }
            },
            _ => {},
        }
    }

    /// Remove defaults for this validator from the given map (mutates in place).
    pub fn remove_default(&self, dct: &mut ValueMap)
        ensures
            final(dct)@ == validator_remove(*self, old(dct)@),
        decreases self, 0nat,
    {
        match self {
            Validator::RequiredRecurse { key, schema } => remove_recurse(key, schema, dct),
            Validator::Optional { key, default, .. } => drop_default(key, default, dct),
            Validator::OptionalRecurse { key, schema, default } => {
                if dct.contains_key(key) {
                    remove_recurse(key, schema, dct);
                    drop_default(key, default, dct);
                }
            },
            Validator::ConditionalOptional { key, default, condition_key, condition_value, .. } => {
                if condition_value.matches(dct.get(condition_key)) {
                    drop_default(key, default, dct);
                }
            },
            Validator::ConditionalRecurse { key, schema, condition_key, condition_value, .. } => {
                if condition_value.matches(dct.get(condition_key)) {
                    remove_recurse(key, schema, dct);
                }
            },
            _ => {},
        }
    }
}

// ---- constructors ----

impl Schema {
    /// Validates a map against a list of validators; `id_key` names the map in error contexts.
    pub fn map<N: IntoText>(object_name: N, id_key: Option<Value>, items: Vec<Validator>) -> (r:
        Schema)
        ensures
            r matches Schema::Dict { object_name: n, id_key: k, items: its } && k == id_key && its
                == items && n@ == object_name.text_spec(),
    {
        Schema::Dict { object_name: object_name.into_text(), id_key, items }
    }

    /// Validates a list where each element matches `of`.
    pub fn array(of: Schema) -> (r: Schema)
        ensures
            r == (Schema::Array { of: Box::new(of), allow_empty: true }),
    {
        Schema::Array { of: Box::new(of), allow_empty: true }
    }

    /// Validates a list of at least one element, each matching `of`.
    pub fn array_nonempty(of: Schema) -> (r: Schema)
        ensures
            r == (Schema::Array { of: Box::new(of), allow_empty: false }),
    {
        Schema::Array { of: Box::new(of), allow_empty: false }
    }

    /// Validates a homogeneous map: each key passes `check_key_fn`, each value matches `value_schema`.
    pub fn key_value_map<N: IntoText>(
        object_name: N,
        check_key_fn: CheckFn,
        value_schema: Schema,
    ) -> (r: Schema)
        ensures
            r matches Schema::KeyValueMap { object_name: n, check_key_fn: c, value_schema: vs }
                && c == check_key_fn && *vs == value_schema && n@ == object_name.text_spec(),
    {
        Schema::KeyValueMap {
            object_name: object_name.into_text(),
            check_key_fn,
            value_schema: Box::new(value_schema),
        }
    }
}

impl Validator {
    /// The key must be present and its value pass the check.
    pub fn required<K: IntoValue>(key: K, check_fn: CheckFn) -> (r: Validator)
        ensures
            r matches Validator::Required { key: k, check_fn: c } && c == check_fn && k@ == key.value_spec(),
    {
        Validator::Required { key: key.into_value(), check_fn }
    }

    /// The key must be present and its value match the schema.
    pub fn required_recurse<K: IntoValue>(key: K, schema: Schema) -> (r: Validator)
        ensures
            r matches Validator::RequiredRecurse { key: k, schema: s } && s == schema && k@ == key.value_spec(),
    {
        Validator::RequiredRecurse { key: key.into_value(), schema }
    }

    /// The value under the key is checked when present; `default` fills it in when missing.
    pub fn optional<K: IntoValue, D: IntoValue>(key: K, check_fn: CheckFn, default: D) -> (r:
        Validator)
        ensures
            r matches Validator::Optional { key: k, check_fn: c, default: d } && c == check_fn && k@ == key.value_spec() && d@ == default.value_spec(),
    {
        Validator::Optional { key: key.into_value(), check_fn, default: default.into_value() }
    }

    /// The value under the key must match the schema when present; `default` fills it in when missing.
    pub fn optional_recurse<K: IntoValue, D: IntoValue>(key: K, schema: Schema, default: D) -> (r:
        Validator)
        ensures
            r matches Validator::OptionalRecurse { key: k, schema: s, default: d } && s == schema
                && k@ == key.value_spec() && d@ == default.value_spec(),
    {
        Validator::OptionalRecurse { key: key.into_value(), schema, default: default.into_value() }
    }

    /// The value under the key is checked when present; there is no default.
    pub fn optional_no_default<K: IntoValue>(key: K, check_fn: CheckFn) -> (r: Validator)
        ensures
            r matches Validator::OptionalNoDefault { key: k, check_fn: c } && c == check_fn && k@ == key.value_spec(),
    {
        Validator::OptionalNoDefault { key: key.into_value(), check_fn }
    }

    /// The key is required and checked when the condition holds of the value under `condition_key`.
    pub fn conditional<K: IntoValue, C: IntoValue>(
        key: K,
        check_fn: CheckFn,
        condition_key: C,
        condition_value: ConditionValue,
    ) -> (r: Validator)
        ensures
            r matches Validator::Conditional {
                key: k,
                check_fn: f,
                condition_key: ck,
                condition_value: cv,
                ensure_absent: ea,
            } && f == check_fn && cv == condition_value && !ea && k@ == key.value_spec() && ck@ == condition_key.value_spec(),
    {
        Validator::Conditional {
            key: key.into_value(),
            check_fn,
            condition_key: condition_key.into_value(),
            condition_value,
            ensure_absent: false,
        }
    }

    /// As `conditional`; when `ensure_absent`, the key must be absent while the condition does not hold.
    pub fn conditional_with_absent<K: IntoValue, C: IntoValue>(
        key: K,
        check_fn: CheckFn,
        condition_key: C,
        condition_value: ConditionValue,
        ensure_absent: bool,
    ) -> (r: Validator)
        ensures
            r matches Validator::Conditional {
                key: k,
                check_fn: f,
                condition_key: ck,
                condition_value: cv,
                ensure_absent: ea,
            } && f == check_fn && cv == condition_value && ea == ensure_absent && k@ == key.value_spec() && ck@ == condition_key.value_spec(),
    {
        Validator::Conditional {
            key: key.into_value(),
            check_fn,
            condition_key: condition_key.into_value(),
            condition_value,
            ensure_absent,
        }
    }

    /// The key is checked when present and the condition holds; `default` fills it in then.
    pub fn conditional_optional<K: IntoValue, D: IntoValue, C: IntoValue>(
        key: K,
        check_fn: CheckFn,
        default: D,
        condition_key: C,
        condition_value: ConditionValue,
    ) -> (r: Validator)
        ensures
            r matches Validator::ConditionalOptional {
                key: k,
                check_fn: f,
                default: d,
                condition_key: ck,
                condition_value: cv,
                ensure_absent: ea,
            } && f == check_fn && cv == condition_value && !ea && k@ == key.value_spec() && d@ == default.value_spec() && ck@ == condition_key.value_spec(),
    {
        Validator::ConditionalOptional {
            key: key.into_value(),
            check_fn,
            default: default.into_value(),
            condition_key: condition_key.into_value(),
            condition_value,
            ensure_absent: false,
        }
    }

    /// As `conditional_optional`; when `ensure_absent`, the key must be absent while the condition does not hold.
    pub fn conditional_optional_with_absent<K: IntoValue, D: IntoValue, C: IntoValue>(
        key: K,
        check_fn: CheckFn,
        default: D,
        condition_key: C,
        condition_value: ConditionValue,
        ensure_absent: bool,
    ) -> (r: Validator)
        ensures
            r matches Validator::ConditionalOptional {
                key: k,
                check_fn: f,
                default: d,
                condition_key: ck,
                condition_value: cv,
                ensure_absent: ea,
            } && f == check_fn && cv == condition_value && ea == ensure_absent && k@ == key.value_spec() && d@ == default.value_spec() && ck@ == condition_key.value_spec(),
    {
        Validator::ConditionalOptional {
            key: key.into_value(),
            check_fn,
            default: default.into_value(),
            condition_key: condition_key.into_value(),
            condition_value,
            ensure_absent,
        }
    }

    /// The key is required and its value must match the schema when the condition holds.
    pub fn conditional_recurse<K: IntoValue, C: IntoValue>(
        key: K,
        schema: Schema,
        condition_key: C,
        condition_value: ConditionValue,
    ) -> (r: Validator)
        ensures
            r matches Validator::ConditionalRecurse {
                key: k,
                schema: s,
                condition_key: ck,
                condition_value: cv,
                ensure_absent: ea,
            } && s == schema && cv == condition_value && !ea && k@ == key.value_spec() && ck@ == condition_key.value_spec(),
    {
        Validator::ConditionalRecurse {
            key: key.into_value(),
            schema,
            condition_key: condition_key.into_value(),
            condition_value,
            ensure_absent: false,
        }
    }

    /// As `conditional_recurse`; when `ensure_absent`, the key must be absent while the condition does not hold.
    pub fn conditional_recurse_with_absent<K: IntoValue, C: IntoValue>(
        key: K,
        schema: Schema,
        condition_key: C,
        condition_value: ConditionValue,
        ensure_absent: bool,
    ) -> (r: Validator)
        ensures
            r matches Validator::ConditionalRecurse {
                key: k,
                schema: s,
                condition_key: ck,
                condition_value: cv,
                ensure_absent: ea,
            } && s == schema && cv == condition_value && ea == ensure_absent && k@ == key.value_spec() && ck@ == condition_key.value_spec(),
    {
        Validator::ConditionalRecurse {
            key: key.into_value(),
            schema,
            condition_key: condition_key.into_value(),
            condition_value,
            ensure_absent,
        }
    }

    /// Only the keys in `keys` are allowed.
    pub fn no_additional_keys(keys: Vec<Value>) -> (r: Validator)
        ensures
            r == (Validator::NoAdditionalKeys { keys }),
    {
        Validator::NoAdditionalKeys { keys }
    }

    /// Keys outside `keys` are handed to `callback`, and pass.
    pub fn warn_additional_keys<F>(keys: Vec<Value>, callback: F) -> (r: Validator) where
        F: Fn(&[Value], &[Value], &ValueMap) + Send + Sync + 'static,

        ensures
            r matches Validator::WarnAdditionalKeys { keys: ks, .. } && ks == keys,
    {
        Validator::WarnAdditionalKeys { keys, callback: WarnCallback::new(callback) }
    }
}

} // verus!
