use vstd::prelude::*;

use crate::check::{
    Outcome,
    one_of_message, regex_compiles,
    ValueType,
    and_gives, array_gives, check_gives, passed, res_with_ctx, and_outcome, array_outcome, check_outcome, fail, same_check, same_checks, with_ctx, CheckFn,
};
use crate::condition::{cond_matches, describe_opposite_spec, ConditionValue};
use crate::text::{join, display_spec, repr_spec, displays, lemma_sort_by_display, nat_text, sort_by_display, texts_sorted};
use crate::equivalence::{
    entries_wf, lemma_dict_wf,lemma_find_key_spec, lemma_remove_then_lookup, lemma_veq_laws};
use crate::schema::{
    elems_gives, for_key_ctx, items_gives, kv_gives,
    absent_msg, dict_ctx, opt_value_view, recurse_gives, schema_gives, validator_gives,
    apply_items, apply_kv, apply_list, apply_spec, default_if_missing, dict_entries, elems_outcome,
    extra_keys, items_outcome, key_allowed, key_ctx, kv_outcome, list_elems, missing_key_msg,
    recurse_outcome, remove_items, remove_kv, remove_list, remove_spec, same_schema, same_validator,
    same_validators, schema_outcome, validator_apply, validator_outcome, validator_remove, Schema,
    Validator,
};
use crate::value::{
    find_key, lemma_find_key_push, lemma_insert_then_lookup,
    lemma_veq_reflexive, seq_has, type_label_spec, lookup, map_insert, map_swap_remove, value_wf, values_view, veq, SpecValue, Value,
};

verus! {

/// An optional validator checks its key only when the key is present: a map
/// without the key passes, and a present value is checked under the context
/// `At key: ...`.
pub proof fn law_optional_checks_only_present_keys(
    key: Value,
    check_fn: CheckFn,
    default: Value,
    d: Seq<(SpecValue, SpecValue)>,
)
    ensures
        ({
            let vd = Validator::Optional { key, check_fn, default };
            match lookup(d, key@) {
                None => validator_outcome(vd, d) == Some(Ok::<(), Seq<Seq<char>>>(())),
                Some(v) => validator_outcome(vd, d) == with_ctx(
                    check_outcome(check_fn, v),
                    key_ctx(key@),
                ),
            }
        }),
{
}

/// A required validator fails on a map without its key, with the message
/// `Missing required key: ...`.
pub proof fn law_required_key_missing(key: Value, check_fn: CheckFn, d: Seq<(SpecValue, SpecValue)>)
    requires
        find_key(d, key@, 0) is None,
    ensures
        validator_outcome(Validator::Required { key, check_fn }, d) == fail(missing_key_msg(key@)),
{
}

/// A conditional validator without the ensure-absent rule accepts any map in
/// which its condition does not hold.
pub proof fn law_conditional_skipped(
    key: Value,
    check_fn: CheckFn,
    condition_key: Value,
    condition_value: ConditionValue,
    d: Seq<(SpecValue, SpecValue)>,
)
    requires
        !cond_matches(condition_value, lookup(d, condition_key@)),
    ensures
        validator_outcome(
            Validator::Conditional {
                key,
                check_fn,
                condition_key,
                condition_value,
                ensure_absent: false,
            },
            d,
        ) == Some(Ok::<(), Seq<Seq<char>>>(())),
{
}

proof fn lemma_extra_keys_empty(keys: Seq<SpecValue>, d: Seq<(SpecValue, SpecValue)>)
    ensures
        extra_keys(keys, d).len() == 0 <==> forall|i: int|
            0 <= i < d.len() ==> key_allowed(keys, #[trigger] d[i].0),
    decreases d.len(),
{
    if d.len() > 0 {
        lemma_extra_keys_empty(keys, d.drop_last());
        assert forall|i: int| 0 <= i < d.len() - 1 implies #[trigger] d.drop_last()[i] == d[i] by {}
        if extra_keys(keys, d).len() == 0 {
            assert forall|i: int| 0 <= i < d.len() implies key_allowed(keys, #[trigger] d[i].0) by {
                if i < d.len() - 1 {
                    assert(d.drop_last()[i] == d[i]);
                }
            }
        }
        if forall|i: int| 0 <= i < d.len() ==> key_allowed(keys, #[trigger] d[i].0) {
            assert(key_allowed(keys, d[d.len() - 1].0));
            assert forall|i: int| 0 <= i < d.drop_last().len() implies key_allowed(
                keys,
                #[trigger] d.drop_last()[i].0,
            ) by {
                assert(d.drop_last()[i] == d[i]);
            }
        }
    }
}

/// A no-additional-keys validator accepts exactly the maps whose keys are
/// all allowed.
pub proof fn law_no_additional_keys(keys: Vec<Value>, d: Seq<(SpecValue, SpecValue)>)
    ensures
        validator_outcome(Validator::NoAdditionalKeys { keys }, d) == Some(
            Ok::<(), Seq<Seq<char>>>(()),
        ) <==> forall|i: int|
            0 <= i < d.len() ==> key_allowed(values_view(keys@), #[trigger] d[i].0),
{
    lemma_extra_keys_empty(values_view(keys@), d);
}

/// After an optional validator applies its default, its key is present:
/// with the value it had, or with the default when it was missing.
pub proof fn law_optional_default_applied(
    key: Value,
    check_fn: CheckFn,
    default: Value,
    d: Seq<(SpecValue, SpecValue)>,
)
    requires
        value_wf(key@),
    ensures
        lookup(validator_apply(Validator::Optional { key, check_fn, default }, d), key@) == (
        match lookup(d, key@) {
            Some(v) => Some(v),
            None => Some(default@),
        }),
{
    if find_key(d, key@, 0) is None {
        lemma_insert_then_lookup(d, key@, default@);
    }
}

/// Applying an optional validator's default twice changes nothing more than
/// applying it once.
pub proof fn law_apply_default_idempotent(
    key: Value,
    check_fn: CheckFn,
    default: Value,
    d: Seq<(SpecValue, SpecValue)>,
)
    requires
        value_wf(key@),
    ensures
        ({
            let vd = Validator::Optional { key, check_fn, default };
            validator_apply(vd, validator_apply(vd, d)) == validator_apply(vd, d)
        }),
{
    if find_key(d, key@, 0) is None {
        lemma_veq_reflexive(key@);
        lemma_find_key_push(d, key@, 0, (key@, default@));
    }
}

/// Removing an optional validator's default undoes applying it, on a map
/// that lacked the key.
pub proof fn law_remove_undoes_apply(
    key: Value,
    check_fn: CheckFn,
    default: Value,
    d: Seq<(SpecValue, SpecValue)>,
)
    requires
        value_wf(key@),
        value_wf(default@),
        find_key(d, key@, 0) is None,
    ensures
        ({
            let vd = Validator::Optional { key, check_fn, default };
            validator_remove(vd, validator_apply(vd, d)) == d
        }),
{
    let d1 = d.push((key@, default@));
    lemma_veq_reflexive(key@);
    lemma_veq_reflexive(default@);
    lemma_find_key_push(d, key@, 0, (key@, default@));
    assert(d1.update(d.len() as int, d1.last()).drop_last() =~= d);
}

/// Applying an array schema's defaults keeps the list's length, and applies
/// the element schema's defaults to each element.
pub proof fn law_apply_defaults_array(of: Schema, allow_empty: bool, v: SpecValue)
    ensures
        ({
            let r = apply_spec(Schema::Array { of: Box::new(of), allow_empty }, v);
            &&& r is List
            &&& r->List_0.len() == list_elems(v).len()
            &&& forall|i: int|
                0 <= i < list_elems(v).len() ==> #[trigger] r->List_0[i] == apply_spec(
                    of,
                    list_elems(v)[i],
                )
        }),
{
}

/// Applying a key-value map schema's defaults keeps the keys and their order,
/// and applies the value schema's defaults to each value.
pub proof fn law_apply_defaults_key_value_map(
    object_name: String,
    check_key_fn: CheckFn,
    value_schema: Schema,
    v: SpecValue,
)
    ensures
        ({
            let r = apply_spec(
                Schema::KeyValueMap { object_name, check_key_fn, value_schema: Box::new(value_schema) },
                v,
            );
            &&& r is Dict
            &&& r->Dict_0.len() == dict_entries(v).len()
            &&& forall|i: int|
                0 <= i < dict_entries(v).len() ==> #[trigger] r->Dict_0[i] == (
                    dict_entries(v)[i].0,
                    apply_spec(value_schema, dict_entries(v)[i].1),
                )
        }),
{
}

// ---- definite outcomes ----

/// The check function holds no user-provided function.
pub open spec fn check_fn_decided(cf: CheckFn) -> bool
    decreases cf, 0nat,
{
    match cf {
        CheckFn::Custom(_) => false,
        CheckFn::Array(inner) => check_fn_decided(*inner),
        CheckFn::And(fns) => forall|i: int|
            0 <= i < fns@.len() ==> check_fn_decided(#[trigger] fns@[i]),
        _ => true,
    }
}

/// The schema holds no user-provided check function.
pub open spec fn schema_decided(s: Schema) -> bool
    decreases s, 0nat,
{
    match s {
        Schema::Dict { items, .. } => forall|i: int|
            0 <= i < items@.len() ==> validator_decided(#[trigger] items@[i]),
        Schema::Array { of, .. } => schema_decided(*of),
        Schema::KeyValueMap { check_key_fn, value_schema, .. } => check_fn_decided(check_key_fn)
            && schema_decided(*value_schema),
    }
}

/// The validator holds no user-provided check function.
pub open spec fn validator_decided(vd: Validator) -> bool
    decreases vd, 0nat,
{
    match vd {
        Validator::Required { check_fn, .. } => check_fn_decided(check_fn),
        Validator::Optional { check_fn, .. } => check_fn_decided(check_fn),
        Validator::OptionalNoDefault { check_fn, .. } => check_fn_decided(check_fn),
        Validator::Conditional { check_fn, .. } => check_fn_decided(check_fn),
        Validator::ConditionalOptional { check_fn, .. } => check_fn_decided(check_fn),
        Validator::RequiredRecurse { schema, .. } => schema_decided(schema),
        Validator::OptionalRecurse { schema, .. } => schema_decided(schema),
        Validator::ConditionalRecurse { schema, .. } => schema_decided(schema),
        _ => true,
    }
}

/// A check function with no user-provided function in it gives every value
/// a definite outcome: a pass, or a failure with its trace.
pub proof fn law_check_decided(cf: CheckFn, v: SpecValue)
    requires
        check_fn_decided(cf),
    ensures
        check_outcome(cf, v) is Some,
    decreases cf, 0nat,
{
    match cf {
        CheckFn::Array(inner) => match v {
            SpecValue::List(l) => lemma_array_decided(*inner, l, 0),
            _ => {},
        },
        CheckFn::And(fns) => lemma_and_decided(fns@, v, 0),
        _ => {},
    }
}

proof fn lemma_array_decided(inner: CheckFn, l: Seq<SpecValue>, i: nat)
    requires
        check_fn_decided(inner),
    ensures
        array_outcome(inner, l, i) is Some,
    decreases inner, l.len() - i,
{
    if i < l.len() {
        law_check_decided(inner, l[i as int]);
        lemma_array_decided(inner, l, i + 1);
    }
}

proof fn lemma_and_decided(fns: Seq<CheckFn>, v: SpecValue, i: nat)
    requires
        forall|j: int| 0 <= j < fns.len() ==> check_fn_decided(#[trigger] fns[j]),
    ensures
        and_outcome(fns, v, i) is Some,
    decreases fns, fns.len() - i,
{
    if i < fns.len() {
        law_check_decided(fns[i as int], v);
        lemma_and_decided(fns, v, i + 1);
    }
}

/// A schema with no user-provided check function in it gives every value a
/// definite outcome, so that `validate` is then owed exactly the result the
/// model gives: `Ok` on a pass, and the failure's trace otherwise.
pub proof fn law_validation_decided(s: Schema, v: SpecValue)
    requires
        schema_decided(s),
    ensures
        schema_outcome(s, v) is Some,
    decreases s, 0nat,
{
    match s {
        Schema::Dict { items, .. } => match v {
            SpecValue::Dict(d) => lemma_items_decided(items@, d, 0),
            _ => {},
        },
        Schema::Array { of, .. } => match v {
            SpecValue::List(l) => lemma_elems_decided(*of, l, 0),
            _ => {},
        },
        Schema::KeyValueMap { check_key_fn, value_schema, .. } => match v {
            SpecValue::Dict(d) => lemma_kv_decided(check_key_fn, *value_schema, d, 0),
            _ => {},
        },
    }
}

proof fn lemma_items_decided(items: Seq<Validator>, d: Seq<(SpecValue, SpecValue)>, i: nat)
    requires
        forall|j: int| 0 <= j < items.len() ==> validator_decided(#[trigger] items[j]),
    ensures
        items_outcome(items, d, i) is Some,
    decreases items, items.len() - i,
{
    if i < items.len() {
        lemma_validator_decided(items[i as int], d);
        lemma_items_decided(items, d, i + 1);
    }
}

proof fn lemma_elems_decided(of: Schema, l: Seq<SpecValue>, i: nat)
    requires
        schema_decided(of),
    ensures
        elems_outcome(of, l, i) is Some,
    decreases of, l.len() - i,
{
    if i < l.len() {
        law_validation_decided(of, l[i as int]);
        lemma_elems_decided(of, l, i + 1);
    }
}

proof fn lemma_kv_decided(
    key_check: CheckFn,
    value_schema: Schema,
    d: Seq<(SpecValue, SpecValue)>,
    i: nat,
)
    requires
        check_fn_decided(key_check),
        schema_decided(value_schema),
    ensures
        kv_outcome(key_check, value_schema, d, i) is Some,
    decreases value_schema, d.len() - i,
{
    if i < d.len() {
        law_check_decided(key_check, d[i as int].0);
        law_validation_decided(value_schema, d[i as int].1);
        lemma_kv_decided(key_check, value_schema, d, i + 1);
    }
}

proof fn lemma_recurse_decided(key: SpecValue, schema: Schema, d: Seq<(SpecValue, SpecValue)>)
    requires
        schema_decided(schema),
    ensures
        recurse_outcome(key, schema, d) is Some,
    decreases schema, 1nat,
{
    match lookup(d, key) {
        Some(v) => law_validation_decided(schema, v),
        None => {},
    }
}

proof fn lemma_validator_decided(vd: Validator, d: Seq<(SpecValue, SpecValue)>)
    requires
        validator_decided(vd),
    ensures
        validator_outcome(vd, d) is Some,
    decreases vd, 0nat,
{
    match vd {
        Validator::Required { key, check_fn } => {
            if let Some(v) = lookup(d, key@) {
                law_check_decided(check_fn, v);
            }
        },
        Validator::Optional { key, check_fn, .. } => {
            if let Some(v) = lookup(d, key@) {
                law_check_decided(check_fn, v);
            }
        },
        Validator::OptionalNoDefault { key, check_fn } => {
            if let Some(v) = lookup(d, key@) {
                law_check_decided(check_fn, v);
            }
        },
        Validator::Conditional { key, check_fn, .. } => {
            if let Some(v) = lookup(d, key@) {
                law_check_decided(check_fn, v);
            }
        },
        Validator::ConditionalOptional { key, check_fn, .. } => {
            if let Some(v) = lookup(d, key@) {
                law_check_decided(check_fn, v);
            }
        },
        Validator::RequiredRecurse { key, schema } => lemma_recurse_decided(key@, schema, d),
        Validator::OptionalRecurse { key, schema, .. } => lemma_recurse_decided(key@, schema, d),
        Validator::ConditionalRecurse { key, schema, .. } => lemma_recurse_decided(key@, schema, d),
        _ => {},
    }
}

// ---- copies ----

/// A copy of a check function (what `clone` returns) gives every value the
/// outcome that the check function it was copied from gives it.
pub proof fn law_copy_checks_alike(a: CheckFn, b: CheckFn, v: SpecValue)
    requires
        same_check(a, b),
    ensures
        check_outcome(a, v) == check_outcome(b, v),
    decreases a, 0nat,
{
    match (a, b) {
        (CheckFn::Array(x), CheckFn::Array(y)) => match v {
            SpecValue::List(l) => lemma_copy_array_alike(*x, *y, l, 0),
            _ => {},
        },
        (CheckFn::And(xs), CheckFn::And(ys)) => lemma_copy_and_alike(xs@, ys@, v, 0),
        _ => {},
    }
}

proof fn lemma_copy_array_alike(a: CheckFn, b: CheckFn, l: Seq<SpecValue>, i: nat)
    requires
        same_check(a, b),
    ensures
        array_outcome(a, l, i) == array_outcome(b, l, i),
    decreases a, l.len() - i,
{
    if i < l.len() {
        law_copy_checks_alike(a, b, l[i as int]);
        lemma_copy_array_alike(a, b, l, i + 1);
    }
}

proof fn lemma_copy_and_alike(xs: Seq<CheckFn>, ys: Seq<CheckFn>, v: SpecValue, i: nat)
    requires
        same_checks(xs, ys),
    ensures
        and_outcome(xs, v, i) == and_outcome(ys, v, i),
    decreases xs, xs.len() - i,
{
    if i < xs.len() {
        law_copy_checks_alike(xs[i as int], ys[i as int], v);
        lemma_copy_and_alike(xs, ys, v, i + 1);
    }
}

/// A copy of a schema (what `clone` returns) gives every value the outcome
/// that the schema it was copied from gives it.
pub proof fn law_copy_validates_alike(a: Schema, b: Schema, v: SpecValue)
    requires
        same_schema(a, b),
    ensures
        schema_outcome(a, v) == schema_outcome(b, v),
    decreases a, 0nat,
{
    match (a, b) {
        (Schema::Dict { items: x, .. }, Schema::Dict { items: y, .. }) => match v {
            SpecValue::Dict(d) => lemma_copy_items_alike(x@, y@, d, 0),
            _ => {},
        },
        (Schema::Array { of: x, .. }, Schema::Array { of: y, .. }) => match v {
            SpecValue::List(l) => lemma_copy_elems_alike(*x, *y, l, 0),
            _ => {},
        },
        (
            Schema::KeyValueMap { check_key_fn: c1, value_schema: x, .. },
            Schema::KeyValueMap { check_key_fn: c2, value_schema: y, .. },
        ) => match v {
            SpecValue::Dict(d) => lemma_copy_kv_alike(c1, c2, *x, *y, d, 0),
            _ => {},
        },
        _ => {},
    }
}

proof fn lemma_copy_items_alike(
    xs: Seq<Validator>,
    ys: Seq<Validator>,
    d: Seq<(SpecValue, SpecValue)>,
    i: nat,
)
    requires
        same_validators(xs, ys),
    ensures
        items_outcome(xs, d, i) == items_outcome(ys, d, i),
    decreases xs, xs.len() - i,
{
    if i < xs.len() {
        lemma_copy_validator_alike(xs[i as int], ys[i as int], d);
        lemma_copy_items_alike(xs, ys, d, i + 1);
    }
}

proof fn lemma_copy_elems_alike(a: Schema, b: Schema, l: Seq<SpecValue>, i: nat)
    requires
        same_schema(a, b),
    ensures
        elems_outcome(a, l, i) == elems_outcome(b, l, i),
    decreases a, l.len() - i,
{
    if i < l.len() {
        law_copy_validates_alike(a, b, l[i as int]);
        lemma_copy_elems_alike(a, b, l, i + 1);
    }
}

proof fn lemma_copy_kv_alike(
    c1: CheckFn,
    c2: CheckFn,
    a: Schema,
    b: Schema,
    d: Seq<(SpecValue, SpecValue)>,
    i: nat,
)
    requires
        same_check(c1, c2),
        same_schema(a, b),
    ensures
        kv_outcome(c1, a, d, i) == kv_outcome(c2, b, d, i),
    decreases a, d.len() - i,
{
    if i < d.len() {
        law_copy_checks_alike(c1, c2, d[i as int].0);
        law_copy_validates_alike(a, b, d[i as int].1);
        lemma_copy_kv_alike(c1, c2, a, b, d, i + 1);
    }
}

proof fn lemma_copy_lookup_checks_alike(
    c1: CheckFn,
    c2: CheckFn,
    key: SpecValue,
    d: Seq<(SpecValue, SpecValue)>,
)
    requires
        same_check(c1, c2),
    ensures
        lookup(d, key) matches Some(v) ==> check_outcome(c1, v) == check_outcome(c2, v),
{
    if let Some(v) = lookup(d, key) {
        law_copy_checks_alike(c1, c2, v);
    }
}

proof fn lemma_copy_validator_alike(a: Validator, b: Validator, d: Seq<(SpecValue, SpecValue)>)
    requires
        same_validator(a, b),
    ensures
        validator_outcome(a, d) == validator_outcome(b, d),
    decreases a, 0nat,
{
    match (a, b) {
        (Validator::Required { key, check_fn: c1 }, Validator::Required { check_fn: c2, .. }) => {
            lemma_copy_lookup_checks_alike(c1, c2, key@, d);
        },
        (Validator::Optional { key, check_fn: c1, .. }, Validator::Optional { check_fn: c2, .. }) => {
            lemma_copy_lookup_checks_alike(c1, c2, key@, d);
        },
        (
            Validator::OptionalNoDefault { key, check_fn: c1 },
            Validator::OptionalNoDefault { check_fn: c2, .. },
        ) => {
            lemma_copy_lookup_checks_alike(c1, c2, key@, d);
        },
        (
            Validator::Conditional { key, check_fn: c1, .. },
            Validator::Conditional { check_fn: c2, .. },
        ) => {
            lemma_copy_lookup_checks_alike(c1, c2, key@, d);
        },
        (
            Validator::ConditionalOptional { key, check_fn: c1, .. },
            Validator::ConditionalOptional { check_fn: c2, .. },
        ) => {
            lemma_copy_lookup_checks_alike(c1, c2, key@, d);
        },
        (
            Validator::RequiredRecurse { key, schema: s1 },
            Validator::RequiredRecurse { schema: s2, .. },
        ) => {
            if let Some(v) = lookup(d, key@) {
                law_copy_validates_alike(s1, s2, v);
            }
        },
        (
            Validator::OptionalRecurse { key, schema: s1, .. },
            Validator::OptionalRecurse { schema: s2, .. },
        ) => {
            if let Some(v) = lookup(d, key@) {
                law_copy_validates_alike(s1, s2, v);
            }
        },
        (
            Validator::ConditionalRecurse { key, schema: s1, .. },
            Validator::ConditionalRecurse { schema: s2, .. },
        ) => {
            if let Some(v) = lookup(d, key@) {
                law_copy_validates_alike(s1, s2, v);
            }
        },
        _ => {},
    }
}

/// A copy of a schema (what `clone` returns) fills in and removes defaults
/// on every value as the schema it was copied from does.
pub proof fn law_copy_fills_alike(a: Schema, b: Schema, v: SpecValue)
    requires
        same_schema(a, b),
    ensures
        apply_spec(a, v) == apply_spec(b, v),
        remove_spec(a, v) == remove_spec(b, v),
    decreases a, 0nat,
{
    match (a, b) {
        (Schema::Dict { items: x, .. }, Schema::Dict { items: y, .. }) => {
            lemma_copy_items_fill_alike(x@, y@, dict_entries(v), x@.len());
        },
        (Schema::Array { of: x, .. }, Schema::Array { of: y, .. }) => {
            let l = list_elems(v);
            assert forall|i: int| 0 <= i < l.len() implies apply_spec(*x, l[i]) == apply_spec(
                *y,
                l[i],
            ) && remove_spec(*x, l[i]) == remove_spec(*y, l[i]) by {
                law_copy_fills_alike(*x, *y, l[i]);
            }
            assert(apply_list(*x, l) =~= apply_list(*y, l));
            assert(remove_list(*x, l) =~= remove_list(*y, l));
        },
        (
            Schema::KeyValueMap { value_schema: x, .. },
            Schema::KeyValueMap { value_schema: y, .. },
        ) => {
            let d = dict_entries(v);
            assert forall|i: int| 0 <= i < d.len() implies apply_spec(*x, d[i].1) == apply_spec(
                *y,
                d[i].1,
            ) && remove_spec(*x, d[i].1) == remove_spec(*y, d[i].1) by {
                law_copy_fills_alike(*x, *y, d[i].1);
            }
            assert(apply_kv(*x, d) =~= apply_kv(*y, d));
            assert(remove_kv(*x, d) =~= remove_kv(*y, d));
        },
        _ => {},
    }
}

proof fn lemma_copy_items_fill_alike(
    xs: Seq<Validator>,
    ys: Seq<Validator>,
    d: Seq<(SpecValue, SpecValue)>,
    n: nat,
)
    requires
        same_validators(xs, ys),
    ensures
        apply_items(xs, d, n) == apply_items(ys, d, n),
        remove_items(xs, d, n) == remove_items(ys, d, n),
    decreases xs, n,
{
    if n > 0 && n <= xs.len() {
        lemma_copy_items_fill_alike(xs, ys, d, (n - 1) as nat);
        lemma_copy_validator_fills_alike(
            xs[n - 1],
            ys[n - 1],
            apply_items(xs, d, (n - 1) as nat),
            remove_items(xs, d, (n - 1) as nat),
        );
    }
}

proof fn lemma_copy_validator_fills_alike(
    a: Validator,
    b: Validator,
    d: Seq<(SpecValue, SpecValue)>,
    e: Seq<(SpecValue, SpecValue)>,
)
    requires
        same_validator(a, b),
    ensures
        validator_apply(a, d) == validator_apply(b, d),
        validator_remove(a, e) == validator_remove(b, e),
    decreases a, 0nat,
{
    match (a, b) {
        (
            Validator::RequiredRecurse { key, schema: s1 },
            Validator::RequiredRecurse { schema: s2, .. },
        ) => {
            lemma_copy_lookup_fills_alike(s1, s2, key@, d);
            lemma_copy_lookup_fills_alike(s1, s2, key@, e);
        },
        (
            Validator::OptionalRecurse { key, schema: s1, default },
            Validator::OptionalRecurse { schema: s2, .. },
        ) => {
            lemma_copy_lookup_fills_alike(s1, s2, key@, default_if_missing(key@, default@, d));
            lemma_copy_lookup_fills_alike(s1, s2, key@, e);
        },
        (
            Validator::ConditionalRecurse { key, schema: s1, .. },
            Validator::ConditionalRecurse { schema: s2, .. },
        ) => {
            lemma_copy_lookup_fills_alike(s1, s2, key@, d);
            lemma_copy_lookup_fills_alike(s1, s2, key@, e);
        },
        _ => {},
    }
}

proof fn lemma_copy_lookup_fills_alike(
    a: Schema,
    b: Schema,
    key: SpecValue,
    d: Seq<(SpecValue, SpecValue)>,
)
    requires
        same_schema(a, b),
    ensures
        lookup(d, key) matches Some(v) ==> apply_spec(a, v) == apply_spec(b, v) && remove_spec(a, v)
            == remove_spec(b, v),
    decreases a, 1nat,
{
    if let Some(v) = lookup(d, key) {
        law_copy_fills_alike(a, b, v);
    }
}

// ---- value equality ----

/// Value equality (`==` on values) is an equivalence on well-formed values:
/// reflexive, symmetric and transitive.
pub proof fn law_value_eq_equivalence(a: SpecValue, b: SpecValue, c: SpecValue)
    requires
        value_wf(a),
        value_wf(b),
        value_wf(c),
    ensures
        veq(a, a),
        veq(a, b) ==> veq(b, a),
        veq(a, b) && veq(b, c) ==> veq(a, c),
{
    lemma_veq_reflexive(a);
    lemma_veq_laws(a, b, c);
}

/// Removing an optional validator's defaults drops its key exactly when the
/// value there equals the default; any other value stays.
pub proof fn law_remove_drops_default(
    key: Value,
    check_fn: CheckFn,
    default: Value,
    d: Seq<(SpecValue, SpecValue)>,
)
    requires
        value_wf(SpecValue::Dict(d)),
        value_wf(key@),
    ensures
        lookup(validator_remove(Validator::Optional { key, check_fn, default }, d), key@) == (
        match lookup(d, key@) {
            Some(v) => if veq(v, default@) {
                None
            } else {
                Some(v)
            },
            None => None,
        }),
{
    if let Some(v) = lookup(d, key@) {
        if veq(v, default@) {
            lemma_remove_then_lookup(d, key@);
        }
    }
}

// ---- removing what applying added ----

/// The key of an optional validator.
pub open spec fn optional_key(vd: Validator) -> SpecValue {
    match vd {
        Validator::Optional { key, .. } => key@,
        _ => SpecValue::Null,
    }
}

/// The default of an optional validator.
pub open spec fn optional_default(vd: Validator) -> SpecValue {
    match vd {
        Validator::Optional { default, .. } => default@,
        _ => SpecValue::Null,
    }
}

/// The key of a required, optional or optional-without-default validator.
pub open spec fn plain_key(vd: Validator) -> SpecValue {
    match vd {
        Validator::Required { key, .. } => key@,
        Validator::Optional { key, .. } => key@,
        Validator::OptionalNoDefault { key, .. } => key@,
        _ => SpecValue::Null,
    }
}

/// The validators are required, optional or optional without default, with
/// well-formed and pairwise unequal keys and well-formed defaults; and under
/// each optional key the map holds nothing, or a value other than the
/// default.
pub open spec fn round_trip_ready(items: Seq<Validator>, d: Seq<(SpecValue, SpecValue)>) -> bool {
    &&& forall|t: int|
        0 <= t < items.len() ==> #[trigger] items[t] is Required || items[t] is Optional
            || items[t] is OptionalNoDefault
    &&& forall|t: int|
        0 <= t < items.len() ==> value_wf(plain_key(#[trigger] items[t])) && value_wf(
            optional_default(items[t]),
        )
    &&& forall|t: int, u: int|
        0 <= t < items.len() && 0 <= u < items.len() && t != u ==> !veq(
            plain_key(#[trigger] items[t]),
            plain_key(#[trigger] items[u]),
        )
    &&& forall|t: int|
        0 <= t < items.len() && #[trigger] items[t] is Optional ==> match lookup(
            d,
            plain_key(items[t]),
        ) {
            Some(v) => !veq(v, optional_default(items[t])),
            None => true,
        }
}

/// Validator `t` adds an entry: it is optional and its key is missing.
spec fn adds(items: Seq<Validator>, d: Seq<(SpecValue, SpecValue)>, t: int) -> bool {
    items[t] is Optional && find_key(d, plain_key(items[t]), 0) is None
}

spec fn entry_of(items: Seq<Validator>, t: int) -> (SpecValue, SpecValue) {
    (plain_key(items[t]), optional_default(items[t]))
}

/// The entries that the first `n` validators add, in order.
spec fn added(items: Seq<Validator>, d: Seq<(SpecValue, SpecValue)>, n: nat) -> Seq<
    (SpecValue, SpecValue),
>
    decreases n,
{
    if n == 0 {
        Seq::empty()
    } else if adds(items, d, n - 1) {
        added(items, d, (n - 1) as nat).push(entry_of(items, n - 1))
    } else {
        added(items, d, (n - 1) as nat)
    }
}

/// The added entries left after the first `m` validators removed theirs.
spec fn left_after(items: Seq<Validator>, d: Seq<(SpecValue, SpecValue)>, m: nat) -> Seq<
    (SpecValue, SpecValue),
>
    decreases m,
{
    if m == 0 {
        added(items, d, items.len())
    } else if adds(items, d, m - 1) {
        map_swap_remove(left_after(items, d, (m - 1) as nat), plain_key(items[m - 1]))
    } else {
        left_after(items, d, (m - 1) as nat)
    }
}

spec fn in_range(
    items: Seq<Validator>,
    d: Seq<(SpecValue, SpecValue)>,
    lo: int,
    hi: int,
    x: (SpecValue, SpecValue),
) -> bool {
    exists|t: int| lo <= t < hi && adds(items, d, t) && x == #[trigger] entry_of(items, t)
}

spec fn occurs(p: Seq<(SpecValue, SpecValue)>, x: (SpecValue, SpecValue)) -> bool {
    exists|q: int| 0 <= q < p.len() && #[trigger] p[q] == x
}

/// `p` holds, once each, exactly the entries that validators `lo..hi` add.
spec fn holds(
    items: Seq<Validator>,
    d: Seq<(SpecValue, SpecValue)>,
    lo: int,
    hi: int,
    p: Seq<(SpecValue, SpecValue)>,
) -> bool {
    &&& forall|q: int| 0 <= q < p.len() ==> #[trigger] in_range(items, d, lo, hi, p[q])
    &&& forall|t: int| lo <= t < hi && adds(items, d, t) ==> #[trigger] occurs(p, entry_of(items, t))
    &&& forall|q1: int, q2: int|
        0 <= q1 < p.len() && 0 <= q2 < p.len() && q1 != q2 ==> #[trigger] p[q1] != #[trigger] p[q2]
}

proof fn lemma_not_found(m: Seq<(SpecValue, SpecValue)>, key: SpecValue)
    requires
        forall|i: int| 0 <= i < m.len() ==> !veq(key, #[trigger] m[i].0),
    ensures
        find_key(m, key, 0) is None,
{
    lemma_find_key_spec(m, key, 0);
}

proof fn lemma_find_in_prefix(d: Seq<(SpecValue, SpecValue)>, x: Seq<(SpecValue, SpecValue)>, k: SpecValue)
    requires
        find_key(d, k, 0) is Some,
    ensures
        find_key(d + x, k, 0) == find_key(d, k, 0),
        lookup(d + x, k) == lookup(d, k),
{
    lemma_find_key_spec(d, k, 0);
    lemma_find_key_spec(d + x, k, 0);
    let j = find_key(d, k, 0)->0 as int;
    assert((d + x)[j] == d[j]);
    assert forall|i: int| 0 <= i < j implies !veq(k, #[trigger] (d + x)[i].0) by {
        assert((d + x)[i] == d[i]);
    }
}

/// Distinct adding validators give unequal entries.
proof fn lemma_entries_differ(items: Seq<Validator>, d: Seq<(SpecValue, SpecValue)>, t: int, u: int)
    requires
        round_trip_ready(items, d),
        0 <= t < items.len(),
        0 <= u < items.len(),
        t != u,
    ensures
        entry_of(items, t) != entry_of(items, u),
{
    assert(value_wf(plain_key(items[t])));
    lemma_veq_reflexive(plain_key(items[t]));
    assert(!veq(plain_key(items[t]), plain_key(items[u])));
}

proof fn lemma_apply_plain(items: Seq<Validator>, d: Seq<(SpecValue, SpecValue)>, n: nat)
    requires
        round_trip_ready(items, d),
        n <= items.len(),
    ensures
        apply_items(items, d, n) == d + added(items, d, n),
        holds(items, d, 0, n as int, added(items, d, n)),
    decreases n,
{
    if n == 0 {
        assert(d + added(items, d, 0) =~= d);
    } else {
        let t = n - 1;
        lemma_apply_plain(items, d, t as nat);
        let pa = added(items, d, t as nat);
        let prev = d + pa;
        let vd = items[t];
        let k = plain_key(vd);
        assert(apply_items(items, d, n) == validator_apply(vd, prev));
        assert(vd is Required || vd is Optional || vd is OptionalNoDefault);
        if adds(items, d, t) {
            lemma_find_key_spec(d, k, 0);
            assert forall|i: int| 0 <= i < prev.len() implies !veq(k, #[trigger] prev[i].0) by {
                if i >= d.len() {
                    assert(prev[i] == pa[i - d.len()]);
                    assert(in_range(items, d, 0, t, pa[i - d.len()]));
                    let u = choose|u: int|
                        0 <= u < t && adds(items, d, u) && pa[i - d.len()] == #[trigger] entry_of(
                            items,
                            u,
                        );
                    assert(!veq(plain_key(items[t]), plain_key(items[u])));
                } else {
                    assert(prev[i] == d[i]);
                }
            }
            lemma_not_found(prev, k);
            assert(validator_apply(vd, prev) == prev.push(entry_of(items, t)));
            assert(prev.push(entry_of(items, t)) =~= d + added(items, d, n));
            let na = added(items, d, n);
            assert(na == pa.push(entry_of(items, t)));
            assert forall|q: int| 0 <= q < na.len() implies #[trigger] in_range(items, d, 0, n as int, na[q]) by {
                if q < pa.len() {
                    assert(na[q] == pa[q]);
                    assert(in_range(items, d, 0, t, pa[q]));
                } else {
                    assert(na[q] == entry_of(items, t));
                }
            }
            assert forall|u: int| 0 <= u < n && adds(items, d, u) implies #[trigger] occurs(
                na,
                entry_of(items, u),
            ) by {
                if u < t {
                    assert(occurs(pa, entry_of(items, u)));
                    let q = choose|q: int| 0 <= q < pa.len() && #[trigger] pa[q] == entry_of(items, u);
                    assert(na[q] == pa[q]);
                } else {
                    assert(na[pa.len() as int] == entry_of(items, u));
                }
            }
            assert forall|q1: int, q2: int|
                0 <= q1 < na.len() && 0 <= q2 < na.len() && q1 != q2 implies #[trigger] na[q1]
                != #[trigger] na[q2] by {
                if q1 < pa.len() && q2 < pa.len() {
                    assert(na[q1] == pa[q1] && na[q2] == pa[q2]);
                } else {
                    let q = if q1 < pa.len() { q1 } else { q2 };
                    assert(na[q] == pa[q]);
                    assert(in_range(items, d, 0, t, pa[q]));
                    let u = choose|u: int|
                        0 <= u < t && adds(items, d, u) && pa[q] == #[trigger] entry_of(items, u);
                    lemma_entries_differ(items, d, t, u);
                }
            }
        } else {
            if vd is Optional {
                lemma_find_in_prefix(d, pa, k);
            }
            assert(validator_apply(vd, prev) == prev);
            assert(added(items, d, n) == pa);
            assert forall|q: int| 0 <= q < pa.len() implies #[trigger] in_range(items, d, 0, n as int, pa[q]) by {
                assert(in_range(items, d, 0, t, pa[q]));
            }
        }
    }
}

proof fn lemma_remove_plain_step(items: Seq<Validator>, d: Seq<(SpecValue, SpecValue)>, m: nat)
    requires
        round_trip_ready(items, d),
        m < items.len(),
        holds(items, d, m as int, items.len() as int, left_after(items, d, m)),
    ensures
        holds(items, d, m + 1int, items.len() as int, left_after(items, d, m + 1)),
        validator_remove(items[m as int], d + left_after(items, d, m)) == d + left_after(
            items,
            d,
            m + 1,
        ),
{
    let p = left_after(items, d, m);
    let vd = items[m as int];
    let k = plain_key(vd);
    let n = items.len() as int;
    assert(vd is Required || vd is Optional || vd is OptionalNoDefault);
    if !adds(items, d, m as int) {
        if vd is Optional {
            lemma_find_in_prefix(d, p, k);
            assert(find_key(d, k, 0) is Some);
        }
        assert(validator_remove(vd, d + p) == d + p);
        assert(left_after(items, d, m + 1) == p);
        assert forall|q: int| 0 <= q < p.len() implies #[trigger] in_range(items, d, m + 1int, n, p[q]) by {
            assert(in_range(items, d, m as int, n, p[q]));
            let t = choose|t: int|
                m <= t < n && adds(items, d, t) && p[q] == #[trigger] entry_of(items, t);
            assert(t != m);
        }
        return;
    }
    let e = entry_of(items, m as int);
    lemma_veq_reflexive(k);
    lemma_veq_reflexive(optional_default(vd));
    assert(occurs(p, e));
    let q = choose|q: int| 0 <= q < p.len() && #[trigger] p[q] == e;
    assert forall|i: int| 0 <= i < p.len() && i != q implies !veq(k, #[trigger] p[i].0) by {
        assert(in_range(items, d, m as int, n, p[i]));
        let t = choose|t: int| m <= t < n && adds(items, d, t) && p[i] == #[trigger] entry_of(items, t);
        if t == m {
            assert(p[i] == p[q]);
        } else {
            assert(!veq(plain_key(items[m as int]), plain_key(items[t])));
        }
    }
    lemma_find_key_spec(p, k, 0);
    assert(p[q].0 == k);
    assert(veq(k, p[q].0));
    assert(find_key(p, k, 0) is Some);
    assert(find_key(p, k, 0)->0 == q);
    let whole = d + p;
    lemma_find_key_spec(d, k, 0);
    assert forall|i: int| 0 <= i < d.len() + q implies !veq(k, #[trigger] whole[i].0) by {
        if i >= d.len() {
            assert(whole[i] == p[i - d.len()]);
        } else {
            assert(whole[i] == d[i]);
        }
    }
    assert(whole[d.len() + q] == p[q]);
    lemma_find_key_spec(whole, k, 0);
    assert(find_key(whole, k, 0) is Some && find_key(whole, k, 0)->0 == d.len() + q);
    assert(lookup(whole, k) == Some(optional_default(vd)));
    let p2 = left_after(items, d, m + 1);
    assert(p2 == p.update(q, p.last()).drop_last());
    assert(map_swap_remove(whole, k) =~= d + p2);
    let last = p.len() - 1;
    assert forall|i: int| 0 <= i < p2.len() implies #[trigger] in_range(items, d, m + 1int, n, p2[i]) by {
        let src = if i == q { last } else { i };
        assert(p2[i] == p[src]);
        assert(src != q);
        assert(in_range(items, d, m as int, n, p[src]));
        let t = choose|t: int|
            m <= t < n && adds(items, d, t) && p[src] == #[trigger] entry_of(items, t);
        assert(t != m);
        assert(p2[i] == entry_of(items, t));
    }
    assert forall|t: int| m + 1 <= t < n && adds(items, d, t) implies #[trigger] occurs(
        p2,
        entry_of(items, t),
    ) by {
        assert(occurs(p, entry_of(items, t)));
        let qt = choose|qt: int| 0 <= qt < p.len() && #[trigger] p[qt] == entry_of(items, t);
        lemma_entries_differ(items, d, t, m as int);
        assert(qt != q);
        if qt == last {
            assert(p2[q] == entry_of(items, t));
        } else {
            assert(p2[qt] == entry_of(items, t));
        }
    }
    assert forall|q1: int, q2: int|
        0 <= q1 < p2.len() && 0 <= q2 < p2.len() && q1 != q2 implies #[trigger] p2[q1]
        != #[trigger] p2[q2] by {
        let s1 = if q1 == q { last } else { q1 };
        let s2 = if q2 == q { last } else { q2 };
        assert(p2[q1] == p[s1]);
        assert(p2[q2] == p[s2]);
    }
}

proof fn lemma_remove_plain(items: Seq<Validator>, d: Seq<(SpecValue, SpecValue)>, m: nat)
    requires
        round_trip_ready(items, d),
        m <= items.len(),
    ensures
        remove_items(items, d + added(items, d, items.len()), m) == d + left_after(items, d, m),
        holds(items, d, m as int, items.len() as int, left_after(items, d, m)),
    decreases m,
{
    if m == 0 {
        lemma_apply_plain(items, d, items.len());
    } else {
        lemma_remove_plain(items, d, (m - 1) as nat);
        lemma_remove_plain_step(items, d, (m - 1) as nat);
    }
}

/// Removing a map schema's defaults undoes applying them, when its
/// validators are required, optional or optional without default, with
/// pairwise unequal keys, and the map holds nothing, or a value other than
/// the default, under each optional key.
pub proof fn law_remove_defaults_undoes_apply(
    object_name: String,
    id_key: Option<Value>,
    items: Vec<Validator>,
    d: Seq<(SpecValue, SpecValue)>,
)
    requires
        round_trip_ready(items@, d),
    ensures
        ({
            let s = Schema::Dict { object_name, id_key, items };
            remove_spec(s, apply_spec(s, SpecValue::Dict(d))) == SpecValue::Dict(d)
        }),
{
    let it = items@;
    let n = it.len();
    lemma_apply_plain(it, d, n);
    lemma_remove_plain(it, d, n);
    let p = left_after(it, d, n);
    if p.len() > 0 {
        assert(in_range(it, d, n as int, n as int, p[0]));
    }
    assert(d + p =~= d);
}

// ---- applying twice ----

/// The validators are all optional, with well-formed keys.
pub open spec fn all_optional(items: Seq<Validator>) -> bool {
    forall|t: int|
        0 <= t < items.len() ==> #[trigger] items[t] is Optional && value_wf(optional_key(items[t]))
}

proof fn lemma_apply_keeps_found(
    items: Seq<Validator>,
    d: Seq<(SpecValue, SpecValue)>,
    n: nat,
    k: SpecValue,
)
    requires
        all_optional(items),
        n <= items.len(),
        find_key(d, k, 0) is Some,
    ensures
        find_key(apply_items(items, d, n), k, 0) is Some,
    decreases n,
{
    if n > 0 {
        lemma_apply_keeps_found(items, d, (n - 1) as nat, k);
        let prev = apply_items(items, d, (n - 1) as nat);
        let vd = items[n - 1];
        assert(vd is Optional);
        let next = validator_apply(vd, prev);
        lemma_find_key_spec(prev, k, 0);
        lemma_find_key_spec(next, k, 0);
        if next != prev {
            assert(next == prev.push((optional_key(vd), optional_default(vd))));
            let j = find_key(prev, k, 0)->0;
            assert(next[j as int] == prev[j as int]);
        }
    }
}

proof fn lemma_apply_finds_all(items: Seq<Validator>, d: Seq<(SpecValue, SpecValue)>, n: nat)
    requires
        all_optional(items),
        n <= items.len(),
    ensures
        forall|t: int|
            0 <= t < n ==> find_key(apply_items(items, d, n), optional_key(#[trigger] items[t]), 0) is Some,
    decreases n,
{
    if n > 0 {
        lemma_apply_finds_all(items, d, (n - 1) as nat);
        let prev = apply_items(items, d, (n - 1) as nat);
        let vd = items[n - 1];
        assert(vd is Optional);
        let k = optional_key(vd);
        let next = validator_apply(vd, prev);
        assert forall|t: int| 0 <= t < n implies find_key(next, optional_key(#[trigger] items[t]), 0)
            is Some by {
            if t < n - 1 {
                lemma_apply_keeps_found(items, prev, 0, optional_key(items[t]));
                lemma_find_key_spec(prev, optional_key(items[t]), 0);
                lemma_find_key_spec(next, optional_key(items[t]), 0);
                if next != prev {
                    let j = find_key(prev, optional_key(items[t]), 0)->0;
                    assert(next[j as int] == prev[j as int]);
                }
            } else {
                lemma_veq_reflexive(k);
                lemma_find_key_spec(prev, k, 0);
                lemma_find_key_spec(next, k, 0);
                if find_key(prev, k, 0) is None {
                    assert(next == prev.push((k, optional_default(vd))));
                    assert(next[prev.len() as int].0 == k);
                }
            }
        }
    }
}

proof fn lemma_apply_fixed(items: Seq<Validator>, a: Seq<(SpecValue, SpecValue)>, n: nat)
    requires
        all_optional(items),
        n <= items.len(),
        forall|t: int| 0 <= t < items.len() ==> find_key(a, optional_key(#[trigger] items[t]), 0) is Some,
    ensures
        apply_items(items, a, n) == a,
    decreases n,
{
    if n > 0 {
        lemma_apply_fixed(items, a, (n - 1) as nat);
        let vd = items[n - 1];
        assert(vd is Optional);
        assert(find_key(a, optional_key(vd), 0) is Some);
        assert(validator_apply(vd, a) == a);
        assert(apply_items(items, a, n) == validator_apply(vd, apply_items(items, a, (n - 1) as nat)));
    }
}

/// Applying a map schema's defaults a second time changes nothing, when its
/// validators are all optional.
pub proof fn law_apply_defaults_idempotent(
    object_name: String,
    id_key: Option<Value>,
    items: Vec<Validator>,
    v: SpecValue,
)
    requires
        all_optional(items@),
    ensures
        ({
            let s = Schema::Dict { object_name, id_key, items };
            apply_spec(s, apply_spec(s, v)) == apply_spec(s, v)
        }),
{
    let it = items@;
    let n = it.len();
    let once = apply_items(it, dict_entries(v), n);
    lemma_apply_finds_all(it, dict_entries(v), n);
    lemma_apply_fixed(it, once, n);
}

// ---- listing values in messages ----

/// The values that a failed one-of check, or a map with keys that are not
/// allowed, lists in its message are sorted by display: the same values,
/// each as often, with their displays in ascending order.
pub proof fn law_listed_values_sorted(s: Seq<SpecValue>)
    ensures
        sort_by_display(s).to_multiset() == s.to_multiset(),
        texts_sorted(displays(sort_by_display(s))),
{
    lemma_sort_by_display(s);
}

// ---- which keys applying defaults touches ----

/// The key a validator is about, for the validators that have one.
pub open spec fn names_key(vd: Validator, k: SpecValue) -> bool {
    match vd {
        Validator::Required { key, .. } => veq(k, key@),
        Validator::RequiredRecurse { key, .. } => veq(k, key@),
        Validator::Optional { key, .. } => veq(k, key@),
        Validator::OptionalRecurse { key, .. } => veq(k, key@),
        Validator::OptionalNoDefault { key, .. } => veq(k, key@),
        Validator::Conditional { key, .. } => veq(k, key@),
        Validator::ConditionalOptional { key, .. } => veq(k, key@),
        Validator::ConditionalRecurse { key, .. } => veq(k, key@),
        _ => false,
    }
}

/// The validator fills in a default, and is about the key `k`.
pub open spec fn defaulting_names(vd: Validator, k: SpecValue) -> bool {
    (vd is Optional || vd is OptionalRecurse || vd is ConditionalOptional) && names_key(vd, k)
}

/// The validator's key, if it has one, is well-formed.
pub open spec fn key_wf(vd: Validator) -> bool {
    match vd {
        Validator::Required { key, .. } => value_wf(key@),
        Validator::RequiredRecurse { key, .. } => value_wf(key@),
        Validator::Optional { key, .. } => value_wf(key@),
        Validator::OptionalRecurse { key, .. } => value_wf(key@),
        Validator::OptionalNoDefault { key, .. } => value_wf(key@),
        Validator::Conditional { key, .. } => value_wf(key@),
        Validator::ConditionalOptional { key, .. } => value_wf(key@),
        Validator::ConditionalRecurse { key, .. } => value_wf(key@),
        _ => true,
    }
}

/// The keys of the map are well-formed and pairwise unequal.
spec fn keys_ok(d: Seq<(SpecValue, SpecValue)>) -> bool {
    &&& forall|i: int, j: int|
        0 <= i < d.len() && 0 <= j < d.len() && i != j ==> !veq(#[trigger] d[i].0, #[trigger] d[j].0)
    &&& forall|i: int| 0 <= i < d.len() ==> value_wf(#[trigger] d[i].0)
}

proof fn lemma_find_same_keys(a: Seq<(SpecValue, SpecValue)>, b: Seq<(SpecValue, SpecValue)>, k: SpecValue, start: nat)
    requires
        a.len() == b.len(),
        forall|i: int| 0 <= i < a.len() ==> #[trigger] a[i].0 == b[i].0,
    ensures
        find_key(a, k, start) == find_key(b, k, start),
    decreases a.len() - start,
{
    if start < a.len() {
        assert(a[start as int].0 == b[start as int].0);
        lemma_find_same_keys(a, b, k, start + 1);
    }
}

/// Inserting under `kt` keeps the keys well-formed and unequal, keeps every
/// key that was found, and changes no lookup of a key other than `kt`.
proof fn lemma_insert_elsewhere(
    d: Seq<(SpecValue, SpecValue)>,
    kt: SpecValue,
    x: SpecValue,
    k: SpecValue,
)
    requires
        keys_ok(d),
        value_wf(kt),
        value_wf(k),
    ensures
        keys_ok(map_insert(d, kt, x)),
        find_key(d, k, 0) is Some ==> find_key(map_insert(d, kt, x), k, 0) is Some,
        !veq(k, kt) ==> lookup(map_insert(d, kt, x), k) == lookup(d, k),
        find_key(d, kt, 0) is Some ==> find_key(map_insert(d, kt, x), k, 0) == find_key(d, k, 0),
        find_key(d, k, 0) is None && find_key(map_insert(d, kt, x), k, 0) is Some ==> veq(k, kt),
{
    let r = map_insert(d, kt, x);
    lemma_find_key_spec(d, kt, 0);
    lemma_find_key_spec(d, k, 0);
    match find_key(d, kt, 0) {
        Some(j) => {
            assert forall|i: int| 0 <= i < d.len() implies #[trigger] d[i].0 == r[i].0 by {}
            lemma_find_same_keys(d, r, k, 0);
            if !veq(k, kt) {
                if let Some(jk) = find_key(d, k, 0) {
                    if jk == j {
                        let w = d[j as int].0;
                        lemma_veq_laws(kt, w, w);
                        lemma_veq_laws(k, w, kt);
                    }
                }
            }
        },
        None => {
            let n = d.len() as int;
            assert forall|i: int| 0 <= i < n implies !veq(#[trigger] d[i].0, kt) by {
                lemma_veq_laws(kt, d[i].0, d[i].0);
            }
            assert(r == d.push((kt, x)));
            assert forall|i: int, j: int|
                0 <= i < r.len() && 0 <= j < r.len() && i != j implies !veq(
                #[trigger] r[i].0,
                #[trigger] r[j].0,
            ) by {
                if i < n && j < n {
                    assert(!veq(d[i].0, d[j].0));
                } else if i == n {
                    assert(!veq(kt, d[j].0));
                } else {
                    assert(!veq(d[i].0, kt));
                }
            }
            assert forall|i: int| 0 <= i < r.len() implies value_wf(#[trigger] r[i].0) by {
                if i < n {
                    assert(value_wf(d[i].0));
                }
            }
            lemma_find_key_spec(r, k, 0);
            if let Some(jk) = find_key(d, k, 0) {
                assert(r[jk as int] == d[jk as int]);
            } else {
                if !veq(k, kt) {
                    assert(r[n].0 == kt);
                }
            }
        },
    }
}

proof fn lemma_validator_apply_elsewhere(vd: Validator, d: Seq<(SpecValue, SpecValue)>, k: SpecValue)
    requires
        keys_ok(d),
        key_wf(vd),
        value_wf(k),
    ensures
        keys_ok(validator_apply(vd, d)),
        find_key(d, k, 0) is Some ==> find_key(validator_apply(vd, d), k, 0) is Some,
        !names_key(vd, k) ==> lookup(validator_apply(vd, d), k) == lookup(d, k),
        find_key(d, k, 0) is None && find_key(validator_apply(vd, d), k, 0) is Some
            ==> defaulting_names(vd, k),
{
    match vd {
        Validator::Optional { key, default, .. } => {
            if find_key(d, key@, 0) is None {
                lemma_insert_elsewhere(d, key@, default@, k);
            }
        },
        Validator::OptionalRecurse { key, schema, default } => {
            let d1 = default_if_missing(key@, default@, d);
            if find_key(d, key@, 0) is None {
                lemma_insert_elsewhere(d, key@, default@, k);
            }
            if let Some(v) = lookup(d1, key@) {
                lemma_insert_elsewhere(d1, key@, apply_spec(schema, v), k);
            }
        },
        Validator::RequiredRecurse { key, schema } => {
            if let Some(v) = lookup(d, key@) {
                lemma_insert_elsewhere(d, key@, apply_spec(schema, v), k);
            }
        },
        Validator::ConditionalOptional { key, default, condition_key, condition_value, .. } => {
            if cond_matches(condition_value, lookup(d, condition_key@)) && find_key(d, key@, 0) is None {
                lemma_insert_elsewhere(d, key@, default@, k);
            }
        },
        Validator::ConditionalRecurse { key, schema, condition_key, condition_value, .. } => {
            if cond_matches(condition_value, lookup(d, condition_key@)) {
                if let Some(v) = lookup(d, key@) {
                    lemma_insert_elsewhere(d, key@, apply_spec(schema, v), k);
                }
            }
        },
        _ => {},
    }
}

proof fn lemma_apply_items_elsewhere(
    items: Seq<Validator>,
    d: Seq<(SpecValue, SpecValue)>,
    n: nat,
    k: SpecValue,
)
    requires
        keys_ok(d),
        forall|t: int| 0 <= t < items.len() ==> key_wf(#[trigger] items[t]),
        value_wf(k),
        n <= items.len(),
    ensures
        keys_ok(apply_items(items, d, n)),
        find_key(d, k, 0) is Some ==> find_key(apply_items(items, d, n), k, 0) is Some,
        (forall|t: int| 0 <= t < n ==> !names_key(#[trigger] items[t], k)) ==> lookup(
            apply_items(items, d, n),
            k,
        ) == lookup(d, k),
        find_key(d, k, 0) is None && find_key(apply_items(items, d, n), k, 0) is Some ==> exists|
            t: int,
        | 0 <= t < n && #[trigger] defaulting_names(items[t], k),
    decreases n,
{
    if n > 0 {
        lemma_apply_items_elsewhere(items, d, (n - 1) as nat, k);
        let prev = apply_items(items, d, (n - 1) as nat);
        assert(key_wf(items[n - 1]));
        lemma_validator_apply_elsewhere(items[n - 1], prev, k);
        assert(apply_items(items, d, n) == validator_apply(items[n - 1], prev));
        if find_key(d, k, 0) is None && find_key(apply_items(items, d, n), k, 0) is Some {
            if find_key(prev, k, 0) is None {
                assert(defaulting_names(items[n - 1], k));
            }
        }
    }
}

/// Applying a map schema's defaults keeps every key the map had, leaves the
/// value under any key that none of the schema's validators is about, and
/// adds only keys of validators that fill in defaults.
pub proof fn law_apply_defaults_keeps_other_keys(
    object_name: String,
    id_key: Option<Value>,
    items: Vec<Validator>,
    m: Seq<(SpecValue, SpecValue)>,
    k: SpecValue,
)
    requires
        value_wf(SpecValue::Dict(m)),
        value_wf(k),
        forall|t: int| 0 <= t < items@.len() ==> key_wf(#[trigger] items@[t]),
    ensures
        ({
            let s = Schema::Dict { object_name, id_key, items };
            let r = dict_entries(apply_spec(s, SpecValue::Dict(m)));
            &&& find_key(m, k, 0) is Some ==> find_key(r, k, 0) is Some
            &&& (forall|t: int| 0 <= t < items@.len() ==> !names_key(#[trigger] items@[t], k))
                ==> lookup(r, k) == lookup(m, k)
            &&& find_key(m, k, 0) is None && find_key(r, k, 0) is Some ==> exists|t: int|
                0 <= t < items@.len() && #[trigger] defaulting_names(items@[t], k)
        }),
{
    lemma_dict_wf(m);
    assert(entries_wf(m));
    assert forall|i: int| 0 <= i < m.len() implies value_wf(#[trigger] m[i].0) by {}
    lemma_apply_items_elsewhere(items@, m, items@.len(), k);
}

/// A conditional optional validator removes its key exactly when its
/// condition holds and the value there equals the default; otherwise the
/// value under the key stays.
pub proof fn law_conditional_remove_drops_default(
    key: Value,
    check_fn: CheckFn,
    default: Value,
    condition_key: Value,
    condition_value: ConditionValue,
    ensure_absent: bool,
    d: Seq<(SpecValue, SpecValue)>,
)
    requires
        value_wf(SpecValue::Dict(d)),
        value_wf(key@),
    ensures
        lookup(
            validator_remove(
                Validator::ConditionalOptional {
                    key,
                    check_fn,
                    default,
                    condition_key,
                    condition_value,
                    ensure_absent,
                },
                d,
            ),
            key@,
        ) == (match lookup(d, key@) {
            Some(v) => if cond_matches(condition_value, lookup(d, condition_key@)) && veq(
                v,
                default@,
            ) {
                None
            } else {
                Some(v)
            },
            None => None,
        }),
{
    if cond_matches(condition_value, lookup(d, condition_key@)) {
        if let Some(v) = lookup(d, key@) {
            if veq(v, default@) {
                lemma_remove_then_lookup(d, key@);
            }
        }
    }
}

// ---- the two models agree where no user function decides ----

/// For a check function with no user-provided function in it, the results
/// it can give are exactly the one its outcome names.
pub proof fn law_gives_is_outcome(cf: CheckFn, v: SpecValue, r: Result<(), Seq<Seq<char>>>)
    requires
        check_fn_decided(cf),
    ensures
        check_gives(cf, v, r) <==> Some(r) == check_outcome(cf, v),
    decreases cf, 0nat,
{
    match cf {
        CheckFn::Array(inner) => match v {
            SpecValue::List(l) => lemma_array_gives_is_outcome(*inner, l, 0, r),
            _ => {},
        },
        CheckFn::And(fns) => lemma_and_gives_is_outcome(fns@, v, 0, r),
        _ => {},
    }
}

proof fn lemma_array_gives_is_outcome(
    inner: CheckFn,
    l: Seq<SpecValue>,
    i: nat,
    r: Result<(), Seq<Seq<char>>>,
)
    requires
        check_fn_decided(inner),
    ensures
        array_gives(inner, l, i, r) <==> Some(r) == array_outcome(inner, l, i),
    decreases inner, l.len() - i,
{
    if i < l.len() {
        let c = "At index "@ + nat_text(i);
        law_check_decided(inner, l[i as int]);
        let r0 = check_outcome(inner, l[i as int])->0;
        law_gives_is_outcome(inner, l[i as int], r0);
        lemma_array_gives_is_outcome(inner, l, i + 1, r);
        if array_gives(inner, l, i, r) {
            let w = choose|w: Result<(), Seq<Seq<char>>>|
                #![trigger res_with_ctx(w, c)]
                check_gives(inner, l[i as int], w) && match res_with_ctx(w, c) {
                    Ok(()) => array_gives(inner, l, i + 1, r),
                    e => r == e,
                };
            law_gives_is_outcome(inner, l[i as int], w);
            assert(w == r0);
            if r0 is Ok {
                assert(array_outcome(inner, l, i) == array_outcome(inner, l, i + 1));
            } else {
                assert(array_outcome(inner, l, i) == Some(res_with_ctx(r0, c)));
            }
        }
        if Some(r) == array_outcome(inner, l, i) {
            assert(check_gives(inner, l[i as int], r0));
            if r0 is Ok {
                assert(array_outcome(inner, l, i) == array_outcome(inner, l, i + 1));
                assert(res_with_ctx(r0, c) is Ok);
            } else {
                assert(array_outcome(inner, l, i) == Some(res_with_ctx(r0, c)));
                assert(res_with_ctx(r0, c) is Err);
            }
        }
    }
}

proof fn lemma_and_gives_is_outcome(
    fns: Seq<CheckFn>,
    v: SpecValue,
    i: nat,
    r: Result<(), Seq<Seq<char>>>,
)
    requires
        forall|j: int| 0 <= j < fns.len() ==> check_fn_decided(#[trigger] fns[j]),
    ensures
        and_gives(fns, v, i, r) <==> Some(r) == and_outcome(fns, v, i),
    decreases fns, fns.len() - i,
{
    if i < fns.len() {
        let f = fns[i as int];
        law_check_decided(f, v);
        let r0 = check_outcome(f, v)->0;
        law_gives_is_outcome(f, v, r0);
        lemma_and_gives_is_outcome(fns, v, i + 1, r);
        if and_gives(fns, v, i, r) {
            let w = choose|w: Result<(), Seq<Seq<char>>>|
                check_gives(f, v, w) && if #[trigger] passed(w) {
                    and_gives(fns, v, i + 1, r)
                } else {
                    r == w
                };
            law_gives_is_outcome(f, v, w);
            assert(w == r0);
            if r0 is Ok {
                assert(and_outcome(fns, v, i) == and_outcome(fns, v, i + 1));
            } else {
                assert(and_outcome(fns, v, i) == Some(r0));
            }
        }
        if Some(r) == and_outcome(fns, v, i) {
            assert(check_gives(f, v, r0));
            if r0 is Ok {
                assert(and_outcome(fns, v, i) == and_outcome(fns, v, i + 1));
                assert(passed(r0));
            } else {
                assert(and_outcome(fns, v, i) == Some(r0));
                assert(!passed(r0));
            }
        }
    }
}

// ---- validators and schemas in terms of their parts ----

/// A conditional validator acts as the required validator for its key while
/// its condition holds; otherwise it fails only by the ensure-absent rule.
pub proof fn law_conditional_as_required(
    key: Value,
    check_fn: CheckFn,
    condition_key: Value,
    condition_value: ConditionValue,
    ensure_absent: bool,
    d: Seq<(SpecValue, SpecValue)>,
)
    ensures
        ({
            let c = Validator::Conditional {
                key,
                check_fn,
                condition_key,
                condition_value,
                ensure_absent,
            };
            let q = Validator::Required { key, check_fn };
            if cond_matches(condition_value, lookup(d, condition_key@)) {
                &&& validator_outcome(c, d) == validator_outcome(q, d)
                &&& forall|r: Result<(), Seq<Seq<char>>>|
                    #[trigger] validator_gives(c, d, r) == validator_gives(q, d, r)
            } else {
                validator_outcome(c, d) == if ensure_absent && lookup(d, condition_key@) is Some
                    && lookup(d, key@) is Some {
                    fail(absent_msg(key@, condition_key@, condition_value, lookup(d, key@)->0))
                } else {
                    Some(Ok(()))
                }
            }
        }),
{
}

/// A required validator fails with `Missing required key: ...` on a map
/// without its key, and otherwise gives its check's result on the value
/// under the key, with the key as context.
pub proof fn law_required_checks_the_value(
    key: Value,
    check_fn: CheckFn,
    d: Seq<(SpecValue, SpecValue)>,
)
    ensures
        ({
            let q = Validator::Required { key, check_fn };
            match lookup(d, key@) {
                None => validator_outcome(q, d) == fail(missing_key_msg(key@)),
                Some(v) => {
                    &&& validator_outcome(q, d) == with_ctx(check_outcome(check_fn, v), key_ctx(key@))
                    &&& forall|r: Result<(), Seq<Seq<char>>>|
                        #[trigger] validator_gives(q, d, r) <==> exists|r0: Result<(), Seq<Seq<char>>>|
                            #![trigger res_with_ctx(r0, key_ctx(key@))]
                            check_gives(check_fn, v, r0) && r == res_with_ctx(r0, key_ctx(key@))
                },
            }
        }),
{
}

/// A recursing required validator fails with `Missing required key: ...` on
/// a map without its key, and otherwise gives its schema's result on the
/// value under the key, with the key as context.
pub proof fn law_required_recurse_validates_the_value(
    key: Value,
    schema: Schema,
    d: Seq<(SpecValue, SpecValue)>,
)
    ensures
        ({
            let q = Validator::RequiredRecurse { key, schema };
            match lookup(d, key@) {
                None => validator_outcome(q, d) == fail(missing_key_msg(key@)),
                Some(v) => {
                    &&& validator_outcome(q, d) == with_ctx(schema_outcome(schema, v), key_ctx(key@))
                    &&& forall|r: Result<(), Seq<Seq<char>>>|
                        #[trigger] validator_gives(q, d, r) <==> exists|r0: Result<(), Seq<Seq<char>>>|
                            #![trigger res_with_ctx(r0, key_ctx(key@))]
                            schema_gives(schema, v, r0) && r == res_with_ctx(r0, key_ctx(key@))
                },
            }
        }),
{
}

proof fn lemma_items_prefix_passes(items: Seq<Validator>, d: Seq<(SpecValue, SpecValue)>, j: nat)
    requires
        j <= items.len(),
        forall|i: int| 0 <= i < j ==> validator_outcome(#[trigger] items[i], d) == Some(
            Ok::<(), Seq<Seq<char>>>(()),
        ),
    ensures
        items_outcome(items, d, 0) == items_outcome(items, d, j),
    decreases j,
{
    if j > 0 {
        lemma_items_prefix_passes(items, d, (j - 1) as nat);
        assert(validator_outcome(items[j - 1], d) == Some(Ok::<(), Seq<Seq<char>>>(())));
    }
}

/// A map schema passes a map when each validator passes it; otherwise it
/// gives the first failing validator's error, under the map's context.
#[verifier::rlimit(40)]
pub proof fn law_map_schema_first_failure(
    object_name: String,
    id_key: Option<Value>,
    items: Vec<Validator>,
    d: Seq<(SpecValue, SpecValue)>,
    j: nat,
)
    requires
        j <= items@.len(),
        forall|i: int| 0 <= i < j ==> validator_outcome(#[trigger] items@[i], d) == Some(
            Ok::<(), Seq<Seq<char>>>(()),
        ),
    ensures
        ({
            let s = Schema::Dict { object_name, id_key, items };
            let ctx = dict_ctx(object_name@, opt_value_view(id_key), d);
            &&& j == items@.len() ==> schema_outcome(s, SpecValue::Dict(d)) == Some(
                Ok::<(), Seq<Seq<char>>>(()),
            )
            &&& j < items@.len() && !(validator_outcome(items@[j as int], d) matches Some(Ok(_)))
                ==> schema_outcome(s, SpecValue::Dict(d)) == with_ctx(
                validator_outcome(items@[j as int], d),
                ctx,
            )
        }),
{
    let s = Schema::Dict { object_name, id_key, items };
    let ctx = dict_ctx(object_name@, opt_value_view(id_key), d);
    lemma_items_prefix_passes(items@, d, j);
    assert(schema_outcome(s, SpecValue::Dict(d)) == with_ctx(items_outcome(items@, d, 0), ctx));
    if j < items@.len() && !(validator_outcome(items@[j as int], d) matches Some(Ok(_))) {
        assert(items_outcome(items@, d, j) == validator_outcome(items@[j as int], d));
    }
}

proof fn lemma_and_prefix_passes(fns: Seq<CheckFn>, v: SpecValue, j: nat)
    requires
        j <= fns.len(),
        forall|i: int| 0 <= i < j ==> check_outcome(#[trigger] fns[i], v) == Some(
            Ok::<(), Seq<Seq<char>>>(()),
        ),
    ensures
        and_outcome(fns, v, 0) == and_outcome(fns, v, j),
    decreases j,
{
    if j > 0 {
        lemma_and_prefix_passes(fns, v, (j - 1) as nat);
        assert(check_outcome(fns[j - 1], v) == Some(Ok::<(), Seq<Seq<char>>>(())));
    }
}

/// A conjunction of checks passes a value when each check passes it (the
/// empty one passes every value); otherwise it gives the first failing
/// check's error, with no context added.
pub proof fn law_and_first_failure(fns: Vec<CheckFn>, v: SpecValue, j: nat)
    requires
        j <= fns@.len(),
        forall|i: int| 0 <= i < j ==> check_outcome(#[trigger] fns@[i], v) == Some(
            Ok::<(), Seq<Seq<char>>>(()),
        ),
    ensures
        j == fns@.len() ==> check_outcome(CheckFn::And(fns), v) == Some(Ok::<(), Seq<Seq<char>>>(())),
        j < fns@.len() && !(check_outcome(fns@[j as int], v) matches Some(Ok(_)))
            ==> check_outcome(CheckFn::And(fns), v) == check_outcome(fns@[j as int], v),
{
    lemma_and_prefix_passes(fns@, v, j);
    if j < fns@.len() && !(check_outcome(fns@[j as int], v) matches Some(Ok(_))) {
        assert(and_outcome(fns@, v, j) == check_outcome(fns@[j as int], v));
    }
}

// ---- which keys removing defaults touches ----

/// In a map with well-formed, pairwise unequal keys, at most one key equals
/// a well-formed value.
proof fn lemma_one_match(d: Seq<(SpecValue, SpecValue)>, k: SpecValue, a: int, b: int)
    requires
        keys_ok(d),
        value_wf(k),
        0 <= a < d.len(),
        0 <= b < d.len(),
        veq(k, d[a].0),
        veq(k, d[b].0),
    ensures
        a == b,
{
    assert(value_wf(d[a].0));
    assert(value_wf(d[b].0));
    lemma_veq_laws(k, d[a].0, d[b].0);
    if a != b {
        assert(!veq(d[a].0, d[b].0));
    }
}

proof fn lemma_swap_remove_elsewhere(d: Seq<(SpecValue, SpecValue)>, kt: SpecValue, k: SpecValue)
    requires
        keys_ok(d),
        value_wf(kt),
        value_wf(k),
    ensures
        keys_ok(map_swap_remove(d, kt)),
        find_key(map_swap_remove(d, kt), k, 0) is Some ==> find_key(d, k, 0) is Some,
        !veq(k, kt) ==> lookup(map_swap_remove(d, kt), k) == lookup(d, k) && (find_key(
            map_swap_remove(d, kt),
            k,
            0,
        ) is Some == find_key(d, k, 0) is Some),
{
    lemma_find_key_spec(d, kt, 0);
    lemma_find_key_spec(d, k, 0);
    if let Some(j0) = find_key(d, kt, 0) {
        let j = j0 as int;
        let n = d.len() as int;
        let r = map_swap_remove(d, kt);
        let src = |i: int| if i == j { n - 1 } else { i };
        assert forall|i: int| 0 <= i < r.len() implies #[trigger] r[i] == d[src(i)] by {}
        assert forall|i: int, i2: int|
            0 <= i < r.len() && 0 <= i2 < r.len() && i != i2 implies !veq(
            #[trigger] r[i].0,
            #[trigger] r[i2].0,
        ) by {
            assert(r[i] == d[src(i)] && r[i2] == d[src(i2)]);
        }
        assert forall|i: int| 0 <= i < r.len() implies value_wf(#[trigger] r[i].0) by {
            assert(r[i] == d[src(i)]);
        }
        lemma_find_key_spec(r, k, 0);
        if let Some(i0) = find_key(r, k, 0) {
            assert(r[i0 as int] == d[src(i0 as int)]);
            assert(veq(k, d[src(i0 as int)].0));
        }
        if !veq(k, kt) {
            if let Some(jk0) = find_key(d, k, 0) {
                let jk = jk0 as int;
                if jk == j {
                    let w = d[j].0;
                    lemma_veq_laws(kt, w, w);
                    lemma_veq_laws(k, w, kt);
                }
                let pos = if jk == n - 1 { j } else { jk };
                assert(r[pos] == d[jk]);
                assert forall|i: int| 0 <= i < r.len() && i != pos implies !veq(k, #[trigger] r[i].0) by {
                    assert(r[i] == d[src(i)]);
                    if veq(k, d[src(i)].0) {
                        lemma_one_match(d, k, src(i), jk);
                    }
                }
                assert(find_key(r, k, 0) is Some);
                assert(find_key(r, k, 0)->0 == pos);
            } else {
                assert forall|i: int| 0 <= i < r.len() implies !veq(k, #[trigger] r[i].0) by {
                    assert(r[i] == d[src(i)]);
                }
                lemma_not_found(r, k);
            }
        }
    }
}

proof fn lemma_validator_remove_elsewhere(vd: Validator, d: Seq<(SpecValue, SpecValue)>, k: SpecValue)
    requires
        keys_ok(d),
        key_wf(vd),
        value_wf(k),
    ensures
        keys_ok(validator_remove(vd, d)),
        find_key(validator_remove(vd, d), k, 0) is Some ==> find_key(d, k, 0) is Some,
        !names_key(vd, k) ==> lookup(validator_remove(vd, d), k) == lookup(d, k) && (find_key(
            validator_remove(vd, d),
            k,
            0,
        ) is Some == find_key(d, k, 0) is Some),
        find_key(d, k, 0) is Some && find_key(validator_remove(vd, d), k, 0) is None
            ==> defaulting_names(vd, k),
{
    match vd {
        Validator::RequiredRecurse { key, schema } => {
            if let Some(v) = lookup(d, key@) {
                lemma_insert_elsewhere(d, key@, remove_spec(schema, v), k);
            }
        },
        Validator::Optional { key, .. } => {
            lemma_swap_remove_elsewhere(d, key@, k);
        },
        Validator::OptionalRecurse { key, schema, default } => {
            if let Some(v) = lookup(d, key@) {
                let d1 = map_insert(d, key@, remove_spec(schema, v));
                lemma_insert_elsewhere(d, key@, remove_spec(schema, v), k);
                lemma_swap_remove_elsewhere(d1, key@, k);
            }
        },
        Validator::ConditionalOptional { key, .. } => {
            lemma_swap_remove_elsewhere(d, key@, k);
        },
        Validator::ConditionalRecurse { key, schema, .. } => {
            if let Some(v) = lookup(d, key@) {
                lemma_insert_elsewhere(d, key@, remove_spec(schema, v), k);
            }
        },
        _ => {},
    }
}

proof fn lemma_remove_items_elsewhere(
    items: Seq<Validator>,
    d: Seq<(SpecValue, SpecValue)>,
    n: nat,
    k: SpecValue,
)
    requires
        keys_ok(d),
        forall|t: int| 0 <= t < items.len() ==> key_wf(#[trigger] items[t]),
        value_wf(k),
        n <= items.len(),
    ensures
        keys_ok(remove_items(items, d, n)),
        find_key(remove_items(items, d, n), k, 0) is Some ==> find_key(d, k, 0) is Some,
        (forall|t: int| 0 <= t < n ==> !names_key(#[trigger] items[t], k)) ==> lookup(
            remove_items(items, d, n),
            k,
        ) == lookup(d, k) && (find_key(remove_items(items, d, n), k, 0) is Some == find_key(
            d,
            k,
            0,
        ) is Some),
        find_key(d, k, 0) is Some && find_key(remove_items(items, d, n), k, 0) is None ==> exists|
            t: int,
        | 0 <= t < n && #[trigger] defaulting_names(items[t], k),
    decreases n,
{
    if n > 0 {
        lemma_remove_items_elsewhere(items, d, (n - 1) as nat, k);
        let prev = remove_items(items, d, (n - 1) as nat);
        assert(key_wf(items[n - 1]));
        lemma_validator_remove_elsewhere(items[n - 1], prev, k);
        assert(remove_items(items, d, n) == validator_remove(items[n - 1], prev));
        if find_key(d, k, 0) is Some && find_key(remove_items(items, d, n), k, 0) is None {
            if find_key(prev, k, 0) is Some {
                assert(defaulting_names(items[n - 1], k));
            }
        }
    }
}

/// Removing a map schema's defaults adds no key, drops only keys of
/// validators that fill in defaults, and leaves the value under any key that
/// none of the schema's validators is about.
pub proof fn law_remove_defaults_keeps_other_keys(
    object_name: String,
    id_key: Option<Value>,
    items: Vec<Validator>,
    m: Seq<(SpecValue, SpecValue)>,
    k: SpecValue,
)
    requires
        value_wf(SpecValue::Dict(m)),
        value_wf(k),
        forall|t: int| 0 <= t < items@.len() ==> key_wf(#[trigger] items@[t]),
    ensures
        ({
            let s = Schema::Dict { object_name, id_key, items };
            let r = dict_entries(remove_spec(s, SpecValue::Dict(m)));
            &&& find_key(r, k, 0) is Some ==> find_key(m, k, 0) is Some
            &&& find_key(m, k, 0) is Some && find_key(r, k, 0) is None ==> exists|t: int|
                0 <= t < items@.len() && #[trigger] defaulting_names(items@[t], k)
            &&& (forall|t: int| 0 <= t < items@.len() ==> !names_key(#[trigger] items@[t], k))
                ==> lookup(r, k) == lookup(m, k)
        }),
{
    lemma_dict_wf(m);
    assert(entries_wf(m));
    assert forall|i: int| 0 <= i < m.len() implies value_wf(#[trigger] m[i].0) by {}
    lemma_remove_items_elsewhere(items@, m, items@.len(), k);
}

// ---- applying defaults twice, in general ----

/// The validator is about a key (all but the additional-keys ones).
pub open spec fn keyed(vd: Validator) -> bool {
    !(vd is NoAdditionalKeys) && !(vd is WarnAdditionalKeys)
}

/// The key of a validator that has one.
pub open spec fn vkey(vd: Validator) -> SpecValue {
    match vd {
        Validator::Required { key, .. } => key@,
        Validator::RequiredRecurse { key, .. } => key@,
        Validator::Optional { key, .. } => key@,
        Validator::OptionalRecurse { key, .. } => key@,
        Validator::OptionalNoDefault { key, .. } => key@,
        Validator::Conditional { key, .. } => key@,
        Validator::ConditionalOptional { key, .. } => key@,
        Validator::ConditionalRecurse { key, .. } => key@,
        _ => SpecValue::Null,
    }
}

/// The condition key of a conditional validator.
pub open spec fn cond_key(vd: Validator) -> Option<SpecValue> {
    match vd {
        Validator::Conditional { condition_key, .. } => Some(condition_key@),
        Validator::ConditionalOptional { condition_key, .. } => Some(condition_key@),
        Validator::ConditionalRecurse { condition_key, .. } => Some(condition_key@),
        _ => None,
    }
}

/// The validators' keys are pairwise unequal, and no condition key equals a
/// validator's key.
pub open spec fn keys_apart(items: Seq<Validator>) -> bool {
    &&& forall|t: int, u: int|
        0 <= t < items.len() && 0 <= u < items.len() && t != u && keyed(items[t]) && keyed(
            items[u],
        ) ==> !veq(vkey(#[trigger] items[t]), vkey(#[trigger] items[u]))
    &&& forall|t: int, u: int|
        0 <= t < items.len() && 0 <= u < items.len() && keyed(items[t]) && cond_key(
            items[u],
        ) is Some ==> !veq(cond_key(#[trigger] items[u])->0, vkey(#[trigger] items[t]))
}

/// A validator's key, condition key and default are well-formed, and the
/// schema it recurses into is ready.
pub open spec fn validator_idem_ready(vd: Validator) -> bool
    decreases vd, 0nat,
{
    &&& value_wf(vkey(vd))
    &&& (cond_key(vd) matches Some(ck) ==> value_wf(ck))
    &&& match vd {
        Validator::Optional { default, .. } => value_wf(default@),
        Validator::ConditionalOptional { default, .. } => value_wf(default@),
        Validator::OptionalRecurse { schema, default, .. } => value_wf(default@)
            && schema_idem_ready(schema),
        Validator::RequiredRecurse { schema, .. } => schema_idem_ready(schema),
        Validator::ConditionalRecurse { schema, .. } => schema_idem_ready(schema),
        _ => true,
    }
}

/// In every map schema inside `s`, keys are apart and everything is
/// well-formed.
pub open spec fn schema_idem_ready(s: Schema) -> bool
    decreases s, 0nat,
{
    match s {
        Schema::Dict { items, .. } => keys_apart(items@) && forall|t: int|
            0 <= t < items@.len() ==> validator_idem_ready(#[trigger] items@[t]),
        Schema::Array { of, .. } => schema_idem_ready(*of),
        Schema::KeyValueMap { value_schema, .. } => schema_idem_ready(*value_schema),
    }
}

proof fn lemma_lookup_wf(m: Seq<(SpecValue, SpecValue)>, k: SpecValue)
    requires
        value_wf(SpecValue::Dict(m)),
    ensures
        lookup(m, k) matches Some(w) ==> value_wf(w),
{
    lemma_dict_wf(m);
    lemma_find_key_spec(m, k, 0);
    if let Some(j) = find_key(m, k, 0) {
        assert(value_wf(m[j as int].0));
    }
}

proof fn lemma_insert_same(d: Seq<(SpecValue, SpecValue)>, k: SpecValue, x: SpecValue)
    requires
        lookup(d, k) == Some(x),
    ensures
        map_insert(d, k, x) == d,
{
    let j = find_key(d, k, 0)->0 as int;
    lemma_find_key_spec(d, k, 0);
    assert(d.update(j, (d[j].0, x)) =~= d);
}

proof fn lemma_names_apart(items: Seq<Validator>, t: int, u: int)
    requires
        keys_apart(items),
        0 <= t < items.len(),
        0 <= u < items.len(),
        t != u,
        keyed(items[t]),
    ensures
        !names_key(items[u], vkey(items[t])),
{
    if keyed(items[u]) {
        assert(!veq(vkey(items[t]), vkey(items[u])));
    }
}

proof fn lemma_names_cond_apart(items: Seq<Validator>, u: int, ck: SpecValue, t: int)
    requires
        keys_apart(items),
        0 <= t < items.len(),
        0 <= u < items.len(),
        cond_key(items[u]) == Some(ck),
    ensures
        !names_key(items[t], ck),
{
    if keyed(items[t]) {
        assert(!veq(cond_key(items[u])->0, vkey(items[t])));
    }
}

/// Later validators leave the value under validator `t`'s key alone.
proof fn lemma_key_settled(items: Seq<Validator>, m: Seq<(SpecValue, SpecValue)>, t: int, n: nat)
    requires
        keys_ok(m),
        keys_apart(items),
        forall|u: int| 0 <= u < items.len() ==> key_wf(#[trigger] items[u]),
        0 <= t < n <= items.len(),
        keyed(items[t]),
        value_wf(vkey(items[t])),
    ensures
        lookup(apply_items(items, m, n), vkey(items[t])) == lookup(
            apply_items(items, m, (t + 1) as nat),
            vkey(items[t]),
        ),
    decreases n,
{
    if n > t + 1 {
        lemma_key_settled(items, m, t, (n - 1) as nat);
        let prev = apply_items(items, m, (n - 1) as nat);
        lemma_apply_items_elsewhere(items, m, (n - 1) as nat, vkey(items[t]));
        assert(key_wf(items[n - 1]));
        lemma_names_apart(items, t, n - 1);
        lemma_validator_apply_elsewhere(items[n - 1], prev, vkey(items[t]));
        assert(apply_items(items, m, n) == validator_apply(items[n - 1], prev));
    }
}

proof fn lemma_key_wf_of(vd: Validator)
    requires
        validator_idem_ready(vd),
    ensures
        key_wf(vd),
{
}

/// Validator `t` changes nothing on the map that the first pass gave.
proof fn lemma_idem_step(items: Seq<Validator>, m: Seq<(SpecValue, SpecValue)>, t: int)
    requires
        value_wf(SpecValue::Dict(m)),
        keys_apart(items),
        forall|u: int| 0 <= u < items.len() ==> validator_idem_ready(#[trigger] items[u]),
        0 <= t < items.len(),
    ensures
        validator_apply(items[t], apply_items(items, m, items.len())) == apply_items(
            items,
            m,
            items.len(),
        ),
    decreases items, 0nat,
{
    let n = items.len();
    let vd = items[t];
    let k = vkey(vd);
    let m1 = apply_items(items, m, n);
    let mt = apply_items(items, m, t as nat);
    let mt1 = apply_items(items, m, (t + 1) as nat);
    assert forall|u: int| 0 <= u < items.len() implies key_wf(#[trigger] items[u]) by {
        lemma_key_wf_of(items[u]);
    }
    lemma_dict_wf(m);
    assert(entries_wf(m));
    assert forall|i: int| 0 <= i < m.len() implies value_wf(#[trigger] m[i].0) by {}
    assert(keys_ok(m));
    assert(validator_idem_ready(vd));
    assert(mt1 == validator_apply(vd, mt));
    if !keyed(vd) {
        return;
    }
    // the value under the key before validator `t`
    assert forall|u: int| 0 <= u < t implies !names_key(#[trigger] items[u], k) by {
        lemma_names_apart(items, t, u);
    }
    lemma_apply_items_elsewhere(items, m, t as nat, k);
    lemma_lookup_wf(m, k);
    lemma_key_settled(items, m, t, n);
    lemma_apply_items_elsewhere(items, m, n, k);
    // the condition, if any, reads the same in both passes
    if let Some(ck) = cond_key(vd) {
        assert forall|u: int| 0 <= u < n implies !names_key(#[trigger] items[u], ck) by {
            lemma_names_cond_apart(items, t, ck, u);
        }
        lemma_apply_items_elsewhere(items, m, n, ck);
        lemma_apply_items_elsewhere(items, m, t as nat, ck);
    }
    lemma_apply_items_elsewhere(items, m, t as nat, k);
    match vd {
        Validator::Optional { key, default, .. } => {
            if find_key(mt, k, 0) is None {
                lemma_insert_then_lookup(mt, k, default@);
            }
            lemma_find_key_spec(m1, k, 0);
        },
        Validator::ConditionalOptional { key, default, condition_key, condition_value, .. } => {
            if cond_matches(condition_value, lookup(mt, condition_key@)) {
                if find_key(mt, k, 0) is None {
                    lemma_insert_then_lookup(mt, k, default@);
                }
                lemma_find_key_spec(m1, k, 0);
            }
        },
        Validator::RequiredRecurse { key, schema } => {
            if let Some(w) = lookup(mt, k) {
                assert(decreases_to!(items => items[t]));
                law_apply_defaults_idempotent_in_general(schema, w);
                lemma_insert_then_lookup(mt, k, apply_spec(schema, w));
                lemma_insert_same(m1, k, apply_spec(schema, w));
            }
        },
        Validator::ConditionalRecurse { key, schema, condition_key, condition_value, .. } => {
            if cond_matches(condition_value, lookup(mt, condition_key@)) {
                if let Some(w) = lookup(mt, k) {
                    assert(decreases_to!(items => items[t]));
                    law_apply_defaults_idempotent_in_general(schema, w);
                    lemma_insert_then_lookup(mt, k, apply_spec(schema, w));
                    lemma_insert_same(m1, k, apply_spec(schema, w));
                }
            }
        },
        Validator::OptionalRecurse { key, schema, default } => {
            let d1 = default_if_missing(k, default@, mt);
            if find_key(mt, k, 0) is None {
                lemma_insert_then_lookup(mt, k, default@);
            }
            let w = lookup(d1, k)->0;
            assert(value_wf(w));
            assert(decreases_to!(items => items[t]));
            law_apply_defaults_idempotent_in_general(schema, w);
            lemma_insert_then_lookup(d1, k, apply_spec(schema, w));
            lemma_find_key_spec(m1, k, 0);
            assert(default_if_missing(k, default@, m1) == m1);
            lemma_insert_same(m1, k, apply_spec(schema, w));
        },
        _ => {},
    }
}

proof fn lemma_fixed_point(items: Seq<Validator>, a: Seq<(SpecValue, SpecValue)>, n: nat)
    requires
        n <= items.len(),
        forall|t: int| 0 <= t < items.len() ==> validator_apply(#[trigger] items[t], a) == a,
    ensures
        apply_items(items, a, n) == a,
    decreases n,
{
    if n > 0 {
        lemma_fixed_point(items, a, (n - 1) as nat);
        assert(validator_apply(items[n - 1], a) == a);
    }
}

/// Applying a schema's defaults a second time changes nothing, when in every
/// map schema inside it the validators' keys are pairwise unequal and no
/// condition key is a validator's key (everything being well-formed).
pub proof fn law_apply_defaults_idempotent_in_general(s: Schema, v: SpecValue)
    requires
        schema_idem_ready(s),
        value_wf(v),
    ensures
        apply_spec(s, apply_spec(s, v)) == apply_spec(s, v),
    decreases s, 0nat,
{
    match s {
        Schema::Dict { items, .. } => {
            let m = dict_entries(v);
            if !(v is Dict) {
                lemma_dict_wf(m);
            }
            let it = items@;
            let m1 = apply_items(it, m, it.len());
            assert forall|t: int| 0 <= t < it.len() implies validator_apply(#[trigger] it[t], m1)
                == m1 by {
                assert(decreases_to!(s => items));
                lemma_idem_step(it, m, t);
            }
            lemma_fixed_point(it, m1, it.len());
        },
        Schema::Array { of, .. } => {
            let l = list_elems(v);
            assert forall|i: int| 0 <= i < l.len() implies apply_spec(
                *of,
                apply_spec(*of, l[i]),
            ) == apply_spec(*of, l[i]) by {
                law_apply_defaults_idempotent_in_general(*of, l[i]);
            }
            assert(apply_list(*of, apply_list(*of, l)) =~= apply_list(*of, l));
        },
        Schema::KeyValueMap { value_schema, .. } => {
            let d = dict_entries(v);
            if v is Dict {
                lemma_dict_wf(d);
            }
            assert forall|i: int| 0 <= i < d.len() implies apply_spec(
                *value_schema,
                apply_spec(*value_schema, d[i].1),
            ) == apply_spec(*value_schema, d[i].1) by {
                assert(value_wf(d[i].0));
                law_apply_defaults_idempotent_in_general(*value_schema, d[i].1);
            }
            assert(apply_kv(*value_schema, apply_kv(*value_schema, d)) =~= apply_kv(
                *value_schema,
                d,
            ));
        },
    }
}

// ---- what each container and check does, element by element ----

/// A type check passes a value exactly when the value is of that type, and
/// otherwise fails with `Expected <name> got <type of the value>`; the names
/// are `bool`, `int`, `float`, `str` and `bytes`, unless the check gives its
/// own.
pub proof fn law_type_check(t: ValueType, name: Option<&'static str>, v: SpecValue)
    ensures
        ({
            let is_t = match t {
                ValueType::Bool => v is Bool,
                ValueType::Int => v is Int,
                ValueType::Float => v is Float,
                ValueType::String => v is String,
                ValueType::Bytes => v is Bytes,
            };
            let expected = match name {
                Some(n) => n@,
                None => match t {
                    ValueType::Bool => "bool"@,
                    ValueType::Int => "int"@,
                    ValueType::Float => "float"@,
                    ValueType::String => "str"@,
                    ValueType::Bytes => "bytes"@,
                },
            };
            let got = match v {
                SpecValue::Bool(_) => "bool"@,
                SpecValue::Int(_) => "int"@,
                SpecValue::Float(_, _) => "float"@,
                SpecValue::String(_) => "str"@,
                SpecValue::Bytes(_) => "bytes"@,
                SpecValue::List(_) => "list"@,
                SpecValue::Dict(_) => "dict"@,
                SpecValue::Null => "NoneType"@,
            };
            check_outcome(CheckFn::Type(t, name), v) == if is_t {
                Some(Ok::<(), Seq<Seq<char>>>(()))
            } else {
                Some(Err::<(), Seq<Seq<char>>>(seq!["Expected "@ + expected + " got "@ + got]))
            }
        }),
{
}

proof fn lemma_elems_prefix_passes(of: Schema, l: Seq<SpecValue>, j: nat)
    requires
        j <= l.len(),
        forall|i: int| 0 <= i < j ==> schema_outcome(of, #[trigger] l[i]) == Some(
            Ok::<(), Seq<Seq<char>>>(()),
        ),
    ensures
        elems_outcome(of, l, 0) == elems_outcome(of, l, j),
    decreases j,
{
    if j > 0 {
        lemma_elems_prefix_passes(of, l, (j - 1) as nat);
        assert(schema_outcome(of, l[j - 1]) == Some(Ok::<(), Seq<Seq<char>>>(())));
    }
}

/// An array schema checks every element of a list, in order: it passes when
/// every element passes the element schema, and otherwise gives the first
/// failing element's error, unchanged.
pub proof fn law_array_schema_first_failure(of: Schema, allow_empty: bool, l: Seq<SpecValue>, j: nat)
    requires
        allow_empty || l.len() > 0,
        j <= l.len(),
        forall|i: int| 0 <= i < j ==> schema_outcome(of, #[trigger] l[i]) == Some(
            Ok::<(), Seq<Seq<char>>>(()),
        ),
    ensures
        ({
            let s = Schema::Array { of: Box::new(of), allow_empty };
            &&& j == l.len() ==> schema_outcome(s, SpecValue::List(l)) == Some(
                Ok::<(), Seq<Seq<char>>>(()),
            )
            &&& j < l.len() && !(schema_outcome(of, l[j as int]) matches Some(Ok(_)))
                ==> schema_outcome(s, SpecValue::List(l)) == schema_outcome(of, l[j as int])
        }),
{
    lemma_elems_prefix_passes(of, l, j);
    if j < l.len() && !(schema_outcome(of, l[j as int]) matches Some(Ok(_))) {
        assert(elems_outcome(of, l, j) == schema_outcome(of, l[j as int]));
    }
}

/// The results an array schema can give on a list, whatever user functions
/// return: a pass only when every element can pass, and a failure only as
/// the failure of some element after which all before it can pass.
pub proof fn law_array_schema_gives(
    of: Schema,
    allow_empty: bool,
    l: Seq<SpecValue>,
    r: Result<(), Seq<Seq<char>>>,
)
    requires
        allow_empty || l.len() > 0,
        schema_gives(Schema::Array { of: Box::new(of), allow_empty }, SpecValue::List(l), r),
    ensures
        passed(r) ==> forall|i: int| 0 <= i < l.len() ==> #[trigger] schema_gives(of, l[i], Ok(())),
        !passed(r) ==> exists|j: int|
            0 <= j < l.len() && #[trigger] schema_gives(of, l[j], r) && forall|i: int|
                0 <= i < j ==> #[trigger] schema_gives(of, l[i], Ok(())),
{
    lemma_elems_gives_shape(of, l, 0, r);
}

proof fn lemma_elems_gives_shape(of: Schema, l: Seq<SpecValue>, k: nat, r: Result<(), Seq<Seq<char>>>)
    requires
        k <= l.len(),
        elems_gives(of, l, k, r),
    ensures
        passed(r) ==> forall|i: int| k <= i < l.len() ==> #[trigger] schema_gives(of, l[i], Ok(())),
        !passed(r) ==> exists|j: int|
            k <= j < l.len() && #[trigger] schema_gives(of, l[j], r) && forall|i: int|
                k <= i < j ==> #[trigger] schema_gives(of, l[i], Ok(())),
    decreases l.len() - k,
{
    if k < l.len() {
        let r0 = choose|r0: Result<(), Seq<Seq<char>>>|
            schema_gives(of, l[k as int], r0) && if #[trigger] passed(r0) {
                elems_gives(of, l, k + 1, r)
            } else {
                r == r0
            };
        if passed(r0) {
            assert(r0 == Ok::<(), Seq<Seq<char>>>(())) by {
                match r0 {
                    Ok(u) => {
                        assert(u == ());
                    },
                    Err(_) => {},
                }
            }
            lemma_elems_gives_shape(of, l, k + 1, r);
            if !passed(r) {
                let j = choose|j: int|
                    k + 1 <= j < l.len() && #[trigger] schema_gives(of, l[j], r) && forall|i: int|
                        k + 1 <= i < j ==> #[trigger] schema_gives(of, l[i], Ok(()));
                assert forall|i: int| k <= i < j implies #[trigger] schema_gives(of, l[i], Ok(())) by {
                    if i == k {
                    }
                }
            } else {
                assert forall|i: int| k <= i < l.len() implies #[trigger] schema_gives(
                    of,
                    l[i],
                    Ok(()),
                ) by {
                    if i == k {
                    }
                }
            }
        } else {
            assert(r == r0);
            assert(schema_gives(of, l[k as int], r));
        }
    }
}

/// A conditional optional validator without the ensure-absent rule accepts
/// any map in which its condition does not hold, whatever the value under
/// its key.
pub proof fn law_conditional_optional_skipped(
    key: Value,
    check_fn: CheckFn,
    default: Value,
    condition_key: Value,
    condition_value: ConditionValue,
    d: Seq<(SpecValue, SpecValue)>,
    r: Result<(), Seq<Seq<char>>>,
)
    requires
        !cond_matches(condition_value, lookup(d, condition_key@)),
    ensures
        ({
            let vd = Validator::ConditionalOptional {
                key,
                check_fn,
                default,
                condition_key,
                condition_value,
                ensure_absent: false,
            };
            &&& validator_outcome(vd, d) == Some(Ok::<(), Seq<Seq<char>>>(()))
            &&& validator_gives(vd, d, r) <==> r == Ok::<(), Seq<Seq<char>>>(())
        }),
{
}

/// A recursing conditional validator without the ensure-absent rule accepts
/// any map in which its condition does not hold, whatever the value under
/// its key.
pub proof fn law_conditional_recurse_skipped(
    key: Value,
    schema: Schema,
    condition_key: Value,
    condition_value: ConditionValue,
    d: Seq<(SpecValue, SpecValue)>,
    r: Result<(), Seq<Seq<char>>>,
)
    requires
        !cond_matches(condition_value, lookup(d, condition_key@)),
    ensures
        ({
            let vd = Validator::ConditionalRecurse {
                key,
                schema,
                condition_key,
                condition_value,
                ensure_absent: false,
            };
            &&& validator_outcome(vd, d) == Some(Ok::<(), Seq<Seq<char>>>(()))
            &&& validator_gives(vd, d, r) <==> r == Ok::<(), Seq<Seq<char>>>(())
        }),
{
}

/// Removing an array schema's defaults keeps the list's length, and removes
/// the element schema's defaults from each element.
pub proof fn law_remove_defaults_array(of: Schema, allow_empty: bool, v: SpecValue)
    ensures
        ({
            let r = remove_spec(Schema::Array { of: Box::new(of), allow_empty }, v);
            &&& r is List
            &&& r->List_0.len() == list_elems(v).len()
            &&& forall|i: int|
                0 <= i < list_elems(v).len() ==> #[trigger] r->List_0[i] == remove_spec(
                    of,
                    list_elems(v)[i],
                )
        }),
{
}

/// Removing a key-value map schema's defaults keeps the keys and their
/// order, and removes the value schema's defaults from each value.
pub proof fn law_remove_defaults_key_value_map(
    object_name: String,
    check_key_fn: CheckFn,
    value_schema: Schema,
    v: SpecValue,
)
    ensures
        ({
            let r = remove_spec(
                Schema::KeyValueMap { object_name, check_key_fn, value_schema: Box::new(value_schema) },
                v,
            );
            &&& r is Dict
            &&& r->Dict_0.len() == dict_entries(v).len()
            &&& forall|i: int|
                0 <= i < dict_entries(v).len() ==> #[trigger] r->Dict_0[i] == (
                    dict_entries(v)[i].0,
                    remove_spec(value_schema, dict_entries(v)[i].1),
                )
        }),
{
}

proof fn lemma_kv_prefix_passes(kc: CheckFn, vs: Schema, d: Seq<(SpecValue, SpecValue)>, j: nat)
    requires
        j <= d.len(),
        forall|i: int|
            0 <= i < j ==> check_outcome(kc, #[trigger] d[i].0) == Some(Ok::<(), Seq<Seq<char>>>(()))
                && schema_outcome(vs, d[i].1) == Some(Ok::<(), Seq<Seq<char>>>(())),
    ensures
        kv_outcome(kc, vs, d, 0) == kv_outcome(kc, vs, d, j),
    decreases j,
{
    if j > 0 {
        lemma_kv_prefix_passes(kc, vs, d, (j - 1) as nat);
        let e = d[j - 1];
        assert(check_outcome(kc, e.0) == Some(Ok::<(), Seq<Seq<char>>>(())));
        assert(schema_outcome(vs, e.1) == Some(Ok::<(), Seq<Seq<char>>>(())));
    }
}

/// A key-value map schema checks every entry, in order, the key and then the
/// value: it passes when every key passes the key check and every value the
/// value schema, and otherwise gives the first failure under the map's
/// context (`For key: ...` for a key, `At key: ...` for a value).
pub proof fn law_key_value_map_first_failure(
    object_name: String,
    check_key_fn: CheckFn,
    value_schema: Schema,
    d: Seq<(SpecValue, SpecValue)>,
    j: nat,
)
    requires
        j <= d.len(),
        forall|i: int|
            0 <= i < j ==> check_outcome(check_key_fn, #[trigger] d[i].0) == Some(
                Ok::<(), Seq<Seq<char>>>(()),
            ) && schema_outcome(value_schema, d[i].1) == Some(Ok::<(), Seq<Seq<char>>>(())),
    ensures
        ({
            let s = Schema::KeyValueMap {
                object_name,
                check_key_fn,
                value_schema: Box::new(value_schema),
            };
            let ctx = "At "@ + object_name@ + "()"@;
            &&& j == d.len() ==> schema_outcome(s, SpecValue::Dict(d)) == Some(
                Ok::<(), Seq<Seq<char>>>(()),
            )
            &&& j < d.len() && !(check_outcome(check_key_fn, d[j as int].0) matches Some(Ok(_)))
                ==> schema_outcome(s, SpecValue::Dict(d)) == with_ctx(
                with_ctx(check_outcome(check_key_fn, d[j as int].0), for_key_ctx(d[j as int].0)),
                ctx,
            )
            &&& j < d.len() && check_outcome(check_key_fn, d[j as int].0) == Some(
                Ok::<(), Seq<Seq<char>>>(()),
            ) && !(schema_outcome(value_schema, d[j as int].1) matches Some(Ok(_)))
                ==> schema_outcome(s, SpecValue::Dict(d)) == with_ctx(
                with_ctx(schema_outcome(value_schema, d[j as int].1), key_ctx(d[j as int].0)),
                ctx,
            )
        }),
{
    lemma_kv_prefix_passes(check_key_fn, value_schema, d, j);
    if j < d.len() {
        let ko = check_outcome(check_key_fn, d[j as int].0);
        if !(ko matches Some(Ok(_))) {
            assert(with_ctx(ko, for_key_ctx(d[j as int].0)) == ko || ko is Some);
        }
    }
}

// ---- check functions, by what they accept ----

/// The check that accepts anything accepts every value.
pub proof fn law_any_accepts_all(v: SpecValue)
    ensures
        check_outcome(CheckFn::Any, v) == Some(Ok::<(), Seq<Seq<char>>>(())),
{
}

/// A one-of check passes a value exactly when one of the possibilities
/// equals it, and otherwise fails with a single message.
pub proof fn law_one_of_accepts_listed(possible: Vec<Value>, v: SpecValue)
    ensures
        (exists|i: int| 0 <= i < possible@.len() && veq(#[trigger] possible@[i]@, v)) ==> check_outcome(
            CheckFn::OneOf(possible),
            v,
        ) == Some(Ok::<(), Seq<Seq<char>>>(())),
        (forall|i: int| 0 <= i < possible@.len() ==> !veq(#[trigger] possible@[i]@, v)) ==> check_outcome(
            CheckFn::OneOf(possible),
            v,
        ) == Some(Err::<(), Seq<Seq<char>>>(seq![one_of_message(values_view(possible@), v)])),
{
    let vs = values_view(possible@);
    if exists|i: int| 0 <= i < possible@.len() && veq(#[trigger] possible@[i]@, v) {
        let i = choose|i: int| 0 <= i < possible@.len() && veq(#[trigger] possible@[i]@, v);
        assert(vs[i] == possible@[i]@);
    }
    if forall|i: int| 0 <= i < possible@.len() ==> !veq(#[trigger] possible@[i]@, v) {
        assert forall|i: int| 0 <= i < vs.len() implies !veq(#[trigger] vs[i], v) by {
            assert(vs[i] == possible@[i]@);
        }
    }
}

/// The regex check fails every value that is not a string, and passes a
/// string exactly when `regex::Regex::new` accepts it as a pattern.
pub proof fn law_regex_check(v: SpecValue)
    ensures
        match v {
            SpecValue::String(p) => check_outcome(CheckFn::Regex, v) == if regex_compiles(p) {
                Some(Ok::<(), Seq<Seq<char>>>(()))
            } else {
                Some(Err::<(), Seq<Seq<char>>>(seq!["'"@ + p + "' is not a valid python regex"@]))
            },
            _ => check_outcome(CheckFn::Regex, v) == Some(
                Err::<(), Seq<Seq<char>>>(seq!["Expected string got "@ + type_label_spec(v)]),
            ),
        },
{
}

proof fn lemma_array_check_prefix_passes(inner: CheckFn, l: Seq<SpecValue>, j: nat)
    requires
        j <= l.len(),
        forall|i: int| 0 <= i < j ==> check_outcome(inner, #[trigger] l[i]) == Some(
            Ok::<(), Seq<Seq<char>>>(()),
        ),
    ensures
        array_outcome(inner, l, 0) == array_outcome(inner, l, j),
    decreases j,
{
    if j > 0 {
        lemma_array_check_prefix_passes(inner, l, (j - 1) as nat);
        assert(check_outcome(inner, l[j - 1]) == Some(Ok::<(), Seq<Seq<char>>>(())));
    }
}

/// An array check passes a list when every element passes the inner check,
/// and otherwise gives the first failing element's error under
/// `At index <i>`; it fails any value that is not a list.
pub proof fn law_array_check_first_failure(inner: CheckFn, l: Seq<SpecValue>, j: nat)
    requires
        j <= l.len(),
        forall|i: int| 0 <= i < j ==> check_outcome(inner, #[trigger] l[i]) == Some(
            Ok::<(), Seq<Seq<char>>>(()),
        ),
    ensures
        ({
            let c = CheckFn::Array(Box::new(inner));
            &&& j == l.len() ==> check_outcome(c, SpecValue::List(l)) == Some(
                Ok::<(), Seq<Seq<char>>>(()),
            )
            &&& j < l.len() && !(check_outcome(inner, l[j as int]) matches Some(Ok(_)))
                ==> check_outcome(c, SpecValue::List(l)) == with_ctx(
                check_outcome(inner, l[j as int]),
                "At index "@ + nat_text(j),
            )
        }),
{
    lemma_array_check_prefix_passes(inner, l, j);
}

// ---- containers, on values of the wrong shape ----

/// A map schema fails a value that is not a map, and an array schema a value
/// that is not a list, or an empty list when it needs one element at least.
pub proof fn law_schema_wrong_shape(s: Schema, v: SpecValue)
    ensures
        match s {
            Schema::Dict { object_name, .. } => !(v is Dict) ==> schema_outcome(s, v) == Some(
                Err::<(), Seq<Seq<char>>>(
                    seq!["Expected a "@ + object_name@ + " map but got a "@ + type_label_spec(v)],
                ),
            ),
            Schema::KeyValueMap { object_name, .. } => !(v is Dict) ==> schema_outcome(s, v)
                == Some(
                Err::<(), Seq<Seq<char>>>(
                    seq!["Expected a "@ + object_name@ + " map but got a "@ + type_label_spec(v)],
                ),
            ),
            Schema::Array { allow_empty, .. } => {
                &&& !(v is List) ==> schema_outcome(s, v) == Some(
                    Err::<(), Seq<Seq<char>>>(
                        seq!["Expected array but got '"@ + type_label_spec(v) + "'"@],
                    ),
                )
                &&& !allow_empty && v == SpecValue::List(Seq::empty()) ==> schema_outcome(s, v)
                    is Some && schema_outcome(s, v)->0 is Err
            },
        },
{
}

/// The context under which a map schema reports a failure names the map,
/// and, when the schema has an id key, that key with the value the map holds
/// under it (`MISSING` when there is none).
pub proof fn law_map_context(name: Seq<char>, id_key: Option<SpecValue>, d: Seq<(SpecValue, SpecValue)>)
    ensures
        dict_ctx(name, id_key, d) == match id_key {
            Some(k) => "At "@ + name + "("@ + display_spec(k) + "="@ + match lookup(d, k) {
                Some(v) => repr_spec(v),
                None => "MISSING"@,
            } + ")"@,
            None => "At "@ + name + "()"@,
        },
{
}

// ---- conditions and the ensure-absent rule ----

proof fn lemma_has_listed(xs: Vec<Value>, v: SpecValue)
    ensures
        seq_has(values_view(xs@), v) == exists|i: int| 0 <= i < xs@.len() && veq(#[trigger] xs@[i]@, v),
{
    let vs = values_view(xs@);
    if seq_has(vs, v) {
        let i = choose|i: int| 0 <= i < vs.len() && veq(#[trigger] vs[i], v);
        assert(vs[i] == xs@[i]@);
    }
    if exists|i: int| 0 <= i < xs@.len() && veq(#[trigger] xs@[i]@, v) {
        let i = choose|i: int| 0 <= i < xs@.len() && veq(#[trigger] xs@[i]@, v);
        assert(vs[i] == xs@[i]@);
    }
}

/// A condition never holds of a missing key; of a present value, `Exact`
/// holds when the value equals the given one, `Not` when it does not, `In`
/// when one of the given values equals it, and `NotIn` when none does.
pub proof fn law_condition_matches(c: ConditionValue, found: Option<SpecValue>)
    ensures
        found is None ==> !cond_matches(c, found),
        found matches Some(v) ==> cond_matches(c, found) == match c {
            ConditionValue::Exact(x) => veq(v, x@),
            ConditionValue::Not(x) => !veq(v, x@),
            ConditionValue::In(xs) => exists|i: int|
                0 <= i < xs@.len() && veq(#[trigger] xs@[i]@, v),
            ConditionValue::NotIn(xs) => !exists|i: int|
                0 <= i < xs@.len() && veq(#[trigger] xs@[i]@, v),
        },
{
    if let Some(v) = found {
        match c {
            ConditionValue::In(xs) => {
                lemma_has_listed(xs, v);
            },
            ConditionValue::NotIn(xs) => {
                lemma_has_listed(xs, v);
            },
            _ => {},
        }
    }
}

/// What a conditional validator gives while its condition does not hold:
/// a failure by the ensure-absent rule when the rule is on, the condition key
/// is present and its own key is present; a pass otherwise.
pub open spec fn skipped_as_absent_rule(
    o: Outcome,
    key: SpecValue,
    ck: SpecValue,
    cv: ConditionValue,
    ea: bool,
    d: Seq<(SpecValue, SpecValue)>,
) -> bool {
    !cond_matches(cv, lookup(d, ck)) ==> o == if ea && lookup(d, ck) is Some && lookup(d, key) is Some {
        Some(
            Err::<(), Seq<Seq<char>>>(
                seq![
                    "Expected "@ + display_spec(key) + " to be absent when "@ + display_spec(ck)
                        + " "@ + describe_opposite_spec(cv) + ", found "@ + display_spec(key)
                        + ": "@ + repr_spec(lookup(d, key)->0),
                ],
            ),
        )
    } else {
        Some(Ok::<(), Seq<Seq<char>>>(()))
    }
}

/// While its condition does not hold, a conditional validator of any kind
/// fails only by the ensure-absent rule.
pub proof fn law_ensure_absent(vd: Validator, d: Seq<(SpecValue, SpecValue)>)
    ensures
        match vd {
            Validator::Conditional { key, condition_key, condition_value, ensure_absent, .. } =>
                skipped_as_absent_rule(
                validator_outcome(vd, d),
                key@,
                condition_key@,
                condition_value,
                ensure_absent,
                d,
            ),
            Validator::ConditionalOptional {
                key,
                condition_key,
                condition_value,
                ensure_absent,
                ..
            } => skipped_as_absent_rule(
                validator_outcome(vd, d),
                key@,
                condition_key@,
                condition_value,
                ensure_absent,
                d,
            ),
            Validator::ConditionalRecurse {
                key,
                condition_key,
                condition_value,
                ensure_absent,
                ..
            } => skipped_as_absent_rule(
                validator_outcome(vd, d),
                key@,
                condition_key@,
                condition_value,
                ensure_absent,
                d,
            ),
            _ => true,
        },
{
}

proof fn lemma_items_gives_shape(items: Seq<Validator>, d: Seq<(SpecValue, SpecValue)>, k: nat, r: Result<(), Seq<Seq<char>>>)
    requires
        k <= items.len(),
        items_gives(items, d, k, r),
    ensures
        passed(r) ==> forall|i: int| k <= i < items.len() ==> #[trigger] validator_gives(items[i], d, Ok(())),
        !passed(r) ==> exists|j: int|
            k <= j < items.len() && #[trigger] validator_gives(items[j], d, r) && forall|i: int|
                k <= i < j ==> #[trigger] validator_gives(items[i], d, Ok(())),
    decreases items.len() - k,
{
    if k < items.len() {
        let r0 = choose|r0: Result<(), Seq<Seq<char>>>|
            validator_gives(items[k as int], d, r0) && if #[trigger] passed(r0) {
                items_gives(items, d, k + 1, r)
            } else {
                r == r0
            };
        if passed(r0) {
            assert(r0 == Ok::<(), Seq<Seq<char>>>(())) by {
                match r0 {
                    Ok(u) => {
                        assert(u == ());
                    },
                    Err(_) => {},
                }
            }
            lemma_items_gives_shape(items, d, k + 1, r);
            if !passed(r) {
                let j = choose|j: int|
                    k + 1 <= j < items.len() && #[trigger] validator_gives(items[j], d, r) && forall|i: int|
                        k + 1 <= i < j ==> #[trigger] validator_gives(items[i], d, Ok(()));
                assert forall|i: int| k <= i < j implies #[trigger] validator_gives(items[i], d, Ok(())) by {
                    if i == k {
                    }
                }
            } else {
                assert forall|i: int| k <= i < items.len() implies #[trigger] validator_gives(items[i], d, Ok(())) by {
                    if i == k {
                    }
                }
            }
        } else {
            assert(r == r0);
        }
    }
}

proof fn lemma_and_gives_shape(fns: Seq<CheckFn>, v: SpecValue, k: nat, r: Result<(), Seq<Seq<char>>>)
    requires
        k <= fns.len(),
        and_gives(fns, v, k, r),
    ensures
        passed(r) ==> forall|i: int| k <= i < fns.len() ==> #[trigger] check_gives(fns[i], v, Ok(())),
        !passed(r) ==> exists|j: int|
            k <= j < fns.len() && #[trigger] check_gives(fns[j], v, r) && forall|i: int|
                k <= i < j ==> #[trigger] check_gives(fns[i], v, Ok(())),
    decreases fns.len() - k,
{
    if k < fns.len() {
        let r0 = choose|r0: Result<(), Seq<Seq<char>>>|
            check_gives(fns[k as int], v, r0) && if #[trigger] passed(r0) {
                and_gives(fns, v, k + 1, r)
            } else {
                r == r0
            };
        if passed(r0) {
            assert(r0 == Ok::<(), Seq<Seq<char>>>(())) by {
                match r0 {
                    Ok(u) => {
                        assert(u == ());
                    },
                    Err(_) => {},
                }
            }
            lemma_and_gives_shape(fns, v, k + 1, r);
            if !passed(r) {
                let j = choose|j: int|
                    k + 1 <= j < fns.len() && #[trigger] check_gives(fns[j], v, r) && forall|i: int|
                        k + 1 <= i < j ==> #[trigger] check_gives(fns[i], v, Ok(()));
                assert forall|i: int| k <= i < j implies #[trigger] check_gives(fns[i], v, Ok(())) by {
                    if i == k {
                    }
                }
            } else {
                assert forall|i: int| k <= i < fns.len() implies #[trigger] check_gives(fns[i], v, Ok(())) by {
                    if i == k {
                    }
                }
            }
        } else {
            assert(r == r0);
        }
    }
}

/// The results a map schema's validators can give on a map, whatever user
/// functions return: a pass only when every validator can pass, and a
/// failure only as the failure of some validator after which all before it
/// can pass.
pub proof fn law_validators_gives(
    items: Seq<Validator>,
    d: Seq<(SpecValue, SpecValue)>,
    r: Result<(), Seq<Seq<char>>>,
)
    requires
        items_gives(items, d, 0, r),
    ensures
        passed(r) ==> forall|i: int| 0 <= i < items.len() ==> #[trigger] validator_gives(items[i], d, Ok(())),
        !passed(r) ==> exists|j: int|
            0 <= j < items.len() && #[trigger] validator_gives(items[j], d, r) && forall|i: int|
                0 <= i < j ==> #[trigger] validator_gives(items[i], d, Ok(())),
{
    lemma_items_gives_shape(items, d, 0, r);
}

/// The results a conjunction of checks can give on a value, whatever user
/// functions return: a pass only when every check can pass, and a failure
/// only as the failure of some check after which all before it can pass.
pub proof fn law_and_gives(fns: Seq<CheckFn>, v: SpecValue, r: Result<(), Seq<Seq<char>>>)
    requires
        and_gives(fns, v, 0, r),
    ensures
        passed(r) ==> forall|i: int| 0 <= i < fns.len() ==> #[trigger] check_gives(fns[i], v, Ok(())),
        !passed(r) ==> exists|j: int|
            0 <= j < fns.len() && #[trigger] check_gives(fns[j], v, r) && forall|i: int|
                0 <= i < j ==> #[trigger] check_gives(fns[i], v, Ok(())),
{
    lemma_and_gives_shape(fns, v, 0, r);
}

/// An element of a list fails an array check with the result `r` after
/// the inner check gave it the failure `r0`.
pub open spec fn fails_at_index(
    inner: CheckFn,
    l: Seq<SpecValue>,
    j: int,
    r: Result<(), Seq<Seq<char>>>,
) -> bool {
    exists|r0: Result<(), Seq<Seq<char>>>|
        #![trigger res_with_ctx(r0, "At index "@ + nat_text(j as nat))]
        check_gives(inner, l[j], r0) && !passed(r0) && r == res_with_ctx(
            r0,
            "At index "@ + nat_text(j as nat),
        )
}

proof fn lemma_array_gives_shape(inner: CheckFn, l: Seq<SpecValue>, k: nat, r: Result<(), Seq<Seq<char>>>)
    requires
        k <= l.len(),
        array_gives(inner, l, k, r),
    ensures
        passed(r) ==> forall|i: int| k <= i < l.len() ==> #[trigger] check_gives(inner, l[i], Ok(())),
        !passed(r) ==> exists|j: int|
            k <= j < l.len() && #[trigger] fails_at_index(inner, l, j, r) && forall|i: int|
                k <= i < j ==> #[trigger] check_gives(inner, l[i], Ok(())),
    decreases l.len() - k,
{
    if k < l.len() {
        let c = "At index "@ + nat_text(k);
        let r0 = choose|r0: Result<(), Seq<Seq<char>>>|
            #![trigger res_with_ctx(r0, c)]
            check_gives(inner, l[k as int], r0) && match res_with_ctx(r0, c) {
                Ok(()) => array_gives(inner, l, k + 1, r),
                e => r == e,
            };
        if passed(r0) {
            assert(r0 == Ok::<(), Seq<Seq<char>>>(())) by {
                match r0 {
                    Ok(u) => {
                        assert(u == ());
                    },
                    Err(_) => {},
                }
            }
            assert(res_with_ctx(r0, c) is Ok);
            lemma_array_gives_shape(inner, l, k + 1, r);
            if !passed(r) {
                let j = choose|j: int|
                    k + 1 <= j < l.len() && #[trigger] fails_at_index(inner, l, j, r) && forall|i: int|
                        k + 1 <= i < j ==> #[trigger] check_gives(inner, l[i], Ok(()));
                assert forall|i: int| k <= i < j implies #[trigger] check_gives(inner, l[i], Ok(())) by {
                    if i == k {
                    }
                }
            } else {
                assert forall|i: int| k <= i < l.len() implies #[trigger] check_gives(
                    inner,
                    l[i],
                    Ok(()),
                ) by {
                    if i == k {
                    }
                }
            }
        } else {
            assert(res_with_ctx(r0, c) is Err);
            assert(r == res_with_ctx(r0, c));
            assert(fails_at_index(inner, l, k as int, r));
        }
    }
}

/// The results an array check can give on a list, whatever user functions
/// return: a pass only when every element can pass the inner check, and a
/// failure only as some element's failure under `At index <i>`, after which
/// all elements before it can pass.
pub proof fn law_array_check_gives(inner: CheckFn, l: Seq<SpecValue>, r: Result<(), Seq<Seq<char>>>)
    requires
        check_gives(CheckFn::Array(Box::new(inner)), SpecValue::List(l), r),
    ensures
        passed(r) ==> forall|i: int| 0 <= i < l.len() ==> #[trigger] check_gives(inner, l[i], Ok(())),
        !passed(r) ==> exists|j: int|
            0 <= j < l.len() && #[trigger] fails_at_index(inner, l, j, r) && forall|i: int|
                0 <= i < j ==> #[trigger] check_gives(inner, l[i], Ok(())),
{
    lemma_array_gives_shape(inner, l, 0, r);
}

/// Entry `j` of a key-value map fails with the result `r`: its key fails
/// the key check, under `For key: ...`, or its key passes and its value
/// fails the value schema, under `At key: ...`.
pub open spec fn entry_fails(
    kc: CheckFn,
    vs: Schema,
    d: Seq<(SpecValue, SpecValue)>,
    j: int,
    r: Result<(), Seq<Seq<char>>>,
) -> bool {
    ||| exists|r0: Result<(), Seq<Seq<char>>>|
        #![trigger res_with_ctx(r0, for_key_ctx(d[j].0))]
        check_gives(kc, d[j].0, r0) && !passed(r0) && r == res_with_ctx(r0, for_key_ctx(d[j].0))
    ||| check_gives(kc, d[j].0, Ok(())) && exists|r1: Result<(), Seq<Seq<char>>>|
        #![trigger res_with_ctx(r1, key_ctx(d[j].0))]
        schema_gives(vs, d[j].1, r1) && !passed(r1) && r == res_with_ctx(r1, key_ctx(d[j].0))
}

/// Entry `i` of a key-value map can pass: its key the key check and its
/// value the value schema.
pub open spec fn entry_passes(kc: CheckFn, vs: Schema, d: Seq<(SpecValue, SpecValue)>, i: int) -> bool {
    check_gives(kc, d[i].0, Ok(())) && schema_gives(vs, d[i].1, Ok(()))
}

proof fn lemma_ok_unit(r: Result<(), Seq<Seq<char>>>)
    requires
        passed(r),
    ensures
        r == Ok::<(), Seq<Seq<char>>>(()),
{
    match r {
        Ok(u) => {
            assert(u == ());
        },
        Err(_) => {},
    }
}

proof fn lemma_kv_gives_shape(
    kc: CheckFn,
    vs: Schema,
    d: Seq<(SpecValue, SpecValue)>,
    k: nat,
    r: Result<(), Seq<Seq<char>>>,
)
    requires
        k <= d.len(),
        kv_gives(kc, vs, d, k, r),
    ensures
        passed(r) ==> forall|i: int| k <= i < d.len() ==> #[trigger] entry_passes(kc, vs, d, i),
        !passed(r) ==> exists|j: int|
            k <= j < d.len() && #[trigger] entry_fails(kc, vs, d, j, r) && forall|i: int|
                k <= i < j ==> #[trigger] entry_passes(kc, vs, d, i),
    decreases d.len() - k,
{
    if k < d.len() {
        let e = d[k as int];
        let fk = for_key_ctx(e.0);
        let kk = key_ctx(e.0);
        let r0 = choose|r0: Result<(), Seq<Seq<char>>>|
            #![trigger res_with_ctx(r0, fk)]
            check_gives(kc, e.0, r0) && if passed(res_with_ctx(r0, fk)) {
                exists|r1: Result<(), Seq<Seq<char>>>|
                    #![trigger res_with_ctx(r1, kk)]
                    schema_gives(vs, e.1, r1) && if passed(res_with_ctx(r1, kk)) {
                        kv_gives(kc, vs, d, k + 1, r)
                    } else {
                        r == res_with_ctx(r1, kk)
                    }
            } else {
                r == res_with_ctx(r0, fk)
            };
        if passed(res_with_ctx(r0, fk)) {
            assert(passed(r0));
            lemma_ok_unit(r0);
            let r1 = choose|r1: Result<(), Seq<Seq<char>>>|
                #![trigger res_with_ctx(r1, kk)]
                schema_gives(vs, e.1, r1) && if passed(res_with_ctx(r1, kk)) {
                    kv_gives(kc, vs, d, k + 1, r)
                } else {
                    r == res_with_ctx(r1, kk)
                };
            if passed(res_with_ctx(r1, kk)) {
                assert(passed(r1));
                lemma_ok_unit(r1);
                assert(entry_passes(kc, vs, d, k as int));
                lemma_kv_gives_shape(kc, vs, d, k + 1, r);
                if !passed(r) {
                    let j = choose|j: int|
                        k + 1 <= j < d.len() && #[trigger] entry_fails(kc, vs, d, j, r) && forall|
                            i: int,
                        | k + 1 <= i < j ==> #[trigger] entry_passes(kc, vs, d, i);
                    assert forall|i: int| k <= i < j implies #[trigger] entry_passes(kc, vs, d, i) by {
                        if i == k {
                        }
                    }
                } else {
                    assert forall|i: int| k <= i < d.len() implies #[trigger] entry_passes(
                        kc,
                        vs,
                        d,
                        i,
                    ) by {
                        if i == k {
                        }
                    }
                }
            } else {
                assert(!passed(r1));
                assert(r == res_with_ctx(r1, kk));
                assert(entry_fails(kc, vs, d, k as int, r));
            }
        } else {
            assert(!passed(r0));
            assert(entry_fails(kc, vs, d, k as int, r));
        }
    }
}

/// The results a key-value map schema's entries can give, whatever user
/// functions return: a pass only when every entry can pass, and a failure
/// only as some entry's failure, after which all entries before it can
/// pass.
pub proof fn law_key_value_map_gives(
    kc: CheckFn,
    vs: Schema,
    d: Seq<(SpecValue, SpecValue)>,
    r: Result<(), Seq<Seq<char>>>,
)
    requires
        kv_gives(kc, vs, d, 0, r),
    ensures
        passed(r) ==> forall|i: int| 0 <= i < d.len() ==> #[trigger] entry_passes(kc, vs, d, i),
        !passed(r) ==> exists|j: int|
            0 <= j < d.len() && #[trigger] entry_fails(kc, vs, d, j, r) && forall|i: int|
                0 <= i < j ==> #[trigger] entry_passes(kc, vs, d, i),
{
    lemma_kv_gives_shape(kc, vs, d, 0, r);
}

/// The description of the opposite of a condition, as the ensure-absent
/// message gives it: `is not <v>` for `Exact`, `is <v>` for `Not`, and
/// `is not any of (<v>, ...)` / `is any of (<v>, ...)` for `In` / `NotIn`,
/// with the values shown by display.
pub proof fn law_describe_opposite(c: ConditionValue)
    ensures
        describe_opposite_spec(c) == match c {
            ConditionValue::Exact(x) => "is not "@ + display_spec(x@),
            ConditionValue::Not(x) => "is "@ + display_spec(x@),
            ConditionValue::In(xs) => "is not any of "@ + "("@ + join(
                displays(values_view(xs@)),
                ", "@,
            ) + ")"@,
            ConditionValue::NotIn(xs) => "is any of "@ + "("@ + join(
                displays(values_view(xs@)),
                ", "@,
            ) + ")"@,
        },
{
    match c {
        ConditionValue::In(xs) => {
            let j = join(displays(values_view(xs@)), ", "@);
            assert("is not any of "@ + ("("@ + j + ")"@) =~= "is not any of "@ + "("@ + j + ")"@);
        },
        ConditionValue::NotIn(xs) => {
            let j = join(displays(values_view(xs@)), ", "@);
            assert("is any of "@ + ("("@ + j + ")"@) =~= "is any of "@ + "("@ + j + ")"@);
        },
        _ => {},
    }
}

} // verus!
