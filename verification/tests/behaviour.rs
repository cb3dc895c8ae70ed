use std::sync::{Arc, Mutex};

use cfgv::{
    apply_defaults, finish_load, not_a_file_error, remove_defaults, validate, validate_context,
    CheckFn, ConditionValue, Schema, ValidationError, Validator, Value, ValueMap, ValueType,
};

fn vmap(pairs: Vec<(Value, Value)>) -> Value {
    let mut m = ValueMap::new();
    for (k, v) in pairs {
        m.insert(k, v);
    }
    Value::Dict(m)
}

fn s(x: &str) -> Value {
    Value::from(x)
}

fn optional_schema() -> Schema {
    Schema::map(
        "foo",
        None,
        vec![Validator::optional("key", CheckFn::check_bool(), false)],
    )
}

// ---- rendering ----

#[test]
fn repr_of_scalars() {
    assert_eq!(Value::Bool(true).repr(), "True");
    assert_eq!(Value::Bool(false).repr(), "False");
    assert_eq!(Value::Int(0).repr(), "0");
    assert_eq!(Value::Int(-42).repr(), "-42");
    assert_eq!(Value::Int(i64::MIN).repr(), "-9223372036854775808");
    assert_eq!(Value::Int(i64::MAX).repr(), "9223372036854775807");
    assert_eq!(Value::Null.repr(), "None");
    assert_eq!(s("hi").repr(), "'hi'");
    assert_eq!(Value::Bytes(vec![1, 20, 255]).repr(), "[1, 20, 255]");
    assert_eq!(Value::Bytes(vec![]).repr(), "[]");
    assert_eq!(Value::Float(1.5f64.to_bits(), "1.5".to_string()).repr(), "1.5");
}

#[test]
fn repr_of_containers() {
    let v = Value::List(vec![Value::Int(1), s("a"), Value::List(vec![])]);
    assert_eq!(v.repr(), "[1, 'a', []]");
    let m = vmap(vec![(s("a"), Value::Int(1)), (Value::Int(2), vmap(vec![]))]);
    assert_eq!(m.repr(), "{'a': 1, 2: {}}");
}

#[test]
fn display_differs_from_repr_only_for_strings() {
    assert_eq!(s("hi").to_string(), "hi");
    assert_eq!(Value::List(vec![s("a")]).to_string(), "['a']");
    assert_eq!(Value::Int(7).to_string(), "7");
}

#[test]
fn type_labels() {
    assert_eq!(Value::Bool(true).type_label(), "bool");
    assert_eq!(Value::Int(1).type_label(), "int");
    assert_eq!(Value::Float(0, "0".to_string()).type_label(), "float");
    assert_eq!(s("x").type_label(), "str");
    assert_eq!(Value::Bytes(vec![]).type_label(), "bytes");
    assert_eq!(Value::List(vec![]).type_label(), "list");
    assert_eq!(vmap(vec![]).type_label(), "dict");
    assert_eq!(Value::Null.type_label(), "NoneType");
}

// ---- equality and maps ----

#[test]
fn map_equality_ignores_order() {
    let a = vmap(vec![(s("x"), Value::Int(1)), (s("y"), Value::Int(2))]);
    let b = vmap(vec![(s("y"), Value::Int(2)), (s("x"), Value::Int(1))]);
    let c = vmap(vec![(s("y"), Value::Int(3)), (s("x"), Value::Int(1))]);
    assert_eq!(a, b);
    assert_ne!(a, c);
    assert_ne!(a, vmap(vec![(s("x"), Value::Int(1))]));
}

#[test]
fn floats_compare_by_bits() {
    let a = Value::Float(2.0f64.to_bits(), "2".to_string());
    let b = Value::Float(2.0f64.to_bits(), "2.0".to_string());
    let c = Value::Float((-0.0f64).to_bits(), "-0".to_string());
    let d = Value::Float(0.0f64.to_bits(), "0".to_string());
    assert_eq!(a, b);
    assert_ne!(c, d);
    assert_ne!(Value::Int(1), Value::Bool(true));
}

#[test]
fn equality_is_reflexive_on_nested_values() {
    let v = vmap(vec![
        (s("l"), Value::List(vec![Value::Int(1), vmap(vec![(Value::Null, Value::Bytes(vec![3]))])])),
        (Value::Int(5), Value::Bool(false)),
    ]);
    assert_eq!(v, v.clone());
    assert_eq!(v, v.deep_copy());
}

#[test]
fn map_insert_get_swap_remove() {
    let mut m = ValueMap::new();
    assert!(m.is_empty());
    assert_eq!(m.insert(s("a"), Value::Int(1)), None);
    assert_eq!(m.insert(s("b"), Value::Int(2)), None);
    assert_eq!(m.insert(s("c"), Value::Int(3)), None);
    assert_eq!(m.insert(s("a"), Value::Int(10)), Some(Value::Int(1)));
    assert_eq!(m.len(), 3);
    assert_eq!(m.get(&s("a")), Some(&Value::Int(10)));
    assert_eq!(m.get_index_of(&s("c")), Some(2));
    assert_eq!(m.swap_remove(&s("a")), Some(Value::Int(10)));
    assert_eq!(m.get_index(0), Some((&s("c"), &Value::Int(3))));
    assert_eq!(m.get_index(1), Some((&s("b"), &Value::Int(2))));
    assert_eq!(m.get_index(2), None);
    assert!(!m.contains_key(&s("a")));
    assert_eq!(m.swap_remove(&s("zzz")), None);
}

#[test]
fn accessors() {
    assert_eq!(Value::Bool(true).as_bool(), Some(true));
    assert_eq!(Value::Int(3).as_bool(), None);
    assert_eq!(Value::Int(3).as_int(), Some(3));
    assert_eq!(s("q").as_str(), Some("q"));
    assert_eq!(Value::Null.as_str(), None);
    assert_eq!(Value::List(vec![Value::Null]).as_list().map(|l| l.len()), Some(1));
    assert!(vmap(vec![]).as_map().is_some());
    assert!(vmap(vec![]).into_map().is_some());
    assert_eq!(Value::List(vec![]).into_list(), Some(vec![]));
    assert_eq!(Value::Int(1).into_list(), None);
}

#[test]
fn conversions() {
    assert_eq!(Value::from(true), Value::Bool(true));
    assert_eq!(Value::from(7i32), Value::Int(7));
    assert_eq!(Value::from(7i64), Value::Int(7));
    assert_eq!(Value::from(String::from("x")), s("x"));
    assert_eq!(Value::from(vec![1u8, 2]), Value::Bytes(vec![1, 2]));
    assert_eq!(Value::from(vec![Value::Null]), Value::List(vec![Value::Null]));
    assert_eq!(Value::from(ValueMap::new()), vmap(vec![]));
}

// ---- errors ----

#[test]
fn error_trace_and_rendering() {
    let e = ValidationError::new("leaf").with_context("mid").with_context("top");
    assert_eq!(e.trace_parts(), vec!["top", "mid", "leaf"]);
    assert_eq!(e.message(), "top");
    assert_eq!(e.to_string(), "\n==> top\n==> mid\n=====> leaf");
}

#[test]
fn validate_context_wraps_only_errors() {
    let ok: Result<i32, ValidationError> = validate_context(|| "ctx".to_string(), || Ok(3));
    assert_eq!(ok.unwrap(), 3);
    let err: Result<i32, ValidationError> =
        validate_context(|| "ctx".to_string(), || Err(ValidationError::new("bad")));
    assert_eq!(err.unwrap_err().trace_parts(), vec!["ctx", "bad"]);
}

// ---- check functions ----

#[test]
fn type_check_messages() {
    let err = CheckFn::check_string().check(&Value::Int(1)).unwrap_err();
    assert_eq!(err.message(), "Expected string got int");
    let err = CheckFn::check_text().check(&Value::Null).unwrap_err();
    assert_eq!(err.message(), "Expected text got NoneType");
    let err = CheckFn::check_bytes().check(&s("x")).unwrap_err();
    assert_eq!(err.message(), "Expected bytes got str");
    let err = CheckFn::check_int().check(&Value::Bool(true)).unwrap_err();
    assert_eq!(err.message(), "Expected int got bool");
    let err = CheckFn::check_type(ValueType::Float, None).check(&Value::Int(1)).unwrap_err();
    assert_eq!(err.message(), "Expected float got int");
    CheckFn::check_type(ValueType::Float, None)
        .check(&Value::Float(0, "0".to_string()))
        .unwrap();
    CheckFn::Any.check(&Value::Null).unwrap();
}

#[test]
fn one_of_message_is_sorted() {
    let check = CheckFn::check_one_of(vec![s("b"), s("a"), Value::Int(10), Value::Int(9)]);
    let err = check.check(&s("zz")).unwrap_err();
    assert_eq!(err.message(), "Expected one of 10, 9, a, b but got: 'zz'");
    check.check(&Value::Int(9)).unwrap();
}

#[test]
fn regex_check_on_non_string() {
    let err = CheckFn::check_regex().check(&Value::Int(3)).unwrap_err();
    assert_eq!(err.message(), "Expected string got int");
}

#[test]
fn regex_verdict_depends_on_the_pattern() {
    CheckFn::check_regex().check(&s("a+b*")).unwrap();
    let err = CheckFn::check_regex().check(&s("a[")).unwrap_err();
    assert_eq!(err.message(), "'a[' is not a valid python regex");
    assert!(cfgv::regex_verdict("x", true).is_ok());
    assert_eq!(
        cfgv::regex_verdict("x", false).unwrap_err().trace_parts(),
        vec!["'x' is not a valid python regex"]
    );
}

#[test]
fn array_check_on_non_list() {
    let err = CheckFn::check_array(CheckFn::Any).check(&Value::Int(3)).unwrap_err();
    assert_eq!(err.message(), "Expected array but got 'int'");
    CheckFn::check_array(CheckFn::check_bool()).check(&Value::List(vec![])).unwrap();
}

#[test]
fn nested_array_checks_give_both_indexes() {
    let check = CheckFn::check_array(CheckFn::check_array(CheckFn::check_int()));
    let val = Value::List(vec![
        Value::List(vec![Value::Int(1)]),
        Value::List(vec![Value::Int(2), s("x")]),
    ]);
    let err = check.check(&val).unwrap_err();
    assert_eq!(
        err.trace_parts(),
        vec!["At index 1", "At index 1", "Expected int got str"]
    );
}

#[test]
fn custom_check_result_is_passed_through() {
    let check = CheckFn::custom(|v: &Value| match v {
        Value::Int(i) if *i > 0 => Ok(()),
        _ => Err(ValidationError::new("must be positive")),
    });
    check.check(&Value::Int(3)).unwrap();
    let schema = Schema::map("M", None, vec![Validator::required("n", check)]);
    let err = validate(&vmap(vec![(s("n"), Value::Int(-1))]), &schema).unwrap_err();
    assert_eq!(err.trace_parts(), vec!["At M()", "At key: n", "must be positive"]);
}

#[test]
fn and_stops_at_first_failure() {
    let check = CheckFn::check_and(vec![
        CheckFn::check_one_of(vec![s("a("), s("b")]),
        CheckFn::check_regex(),
    ]);
    let err = check.check(&s("a(")).unwrap_err();
    assert_eq!(err.message(), "'a(' is not a valid python regex");
    let err = check.check(&s("c")).unwrap_err();
    assert_eq!(err.message(), "Expected one of a(, b but got: 'c'");
    CheckFn::check_and(vec![]).check(&Value::Null).unwrap();
}

// ---- conditions ----

#[test]
fn condition_exact_and_descriptions() {
    let c = ConditionValue::Exact(Value::Int(1));
    assert!(c.matches(Some(&Value::Int(1))));
    assert!(!c.matches(Some(&Value::Int(2))));
    assert!(!c.matches(None));
    assert_eq!(c.describe_opposite(), "is not 1");
    assert_eq!(ConditionValue::Not(s("x")).describe_opposite(), "is x");
    assert_eq!(
        ConditionValue::In(vec![s("a"), Value::Int(2)]).describe_opposite(),
        "is not any of (a, 2)"
    );
    assert_eq!(ConditionValue::NotIn(vec![]).describe_opposite(), "is any of ()");
}

// ---- schemas ----

#[test]
fn array_of_key_value_maps_names_the_map() {
    let schema = Schema::array_nonempty(Schema::key_value_map(
        "Things",
        CheckFn::Any,
        Schema::array(Schema::map("x", None, vec![])),
    ));
    let err = validate(&Value::List(vec![]), &schema).unwrap_err();
    assert_eq!(err.message(), "Expected at least 1 'Things'");
    let plain = Schema::array_nonempty(Schema::array(optional_schema()));
    let err = validate(&Value::List(vec![]), &plain).unwrap_err();
    assert_eq!(err.message(), "Expected at least 1 'item'");
}

#[test]
fn array_errors_carry_no_index_context() {
    let schema = Schema::array(optional_schema());
    let err = validate(
        &Value::List(vec![vmap(vec![]), vmap(vec![(s("key"), Value::Int(1))])]),
        &schema,
    )
    .unwrap_err();
    assert_eq!(err.trace_parts(), vec!["At foo()", "At key: key", "Expected bool got int"]);
}

#[test]
fn id_key_value_shown_by_repr() {
    let schema = Schema::map(
        "Hook",
        Some(s("id")),
        vec![Validator::required("id", CheckFn::Any), Validator::required("x", CheckFn::Any)],
    );
    let err = validate(&vmap(vec![(s("id"), s("flake8"))]), &schema).unwrap_err();
    assert_eq!(err.trace_parts(), vec!["At Hook(id='flake8')", "Missing required key: x"]);
}

#[test]
fn no_additional_keys_lists_extras_sorted() {
    let schema = Schema::map(
        "M",
        None,
        vec![Validator::no_additional_keys(vec![s("a"), s("b")])],
    );
    let val = vmap(vec![
        (s("zeta"), Value::Null),
        (s("a"), Value::Null),
        (s("alpha"), Value::Null),
        (Value::Int(3), Value::Null),
    ]);
    let err = validate(&val, &schema).unwrap_err();
    assert_eq!(
        err.trace_parts(),
        vec![
            "At M()",
            "Additional keys found: 3, alpha, zeta.  Only these keys are allowed: a, b"
        ]
    );
    validate(&vmap(vec![(s("b"), Value::Null)]), &schema).unwrap();
}

#[test]
fn warn_callback_receives_sorted_extras() {
    let seen: Arc<Mutex<Vec<String>>> = Arc::new(Mutex::new(Vec::new()));
    let seen2 = seen.clone();
    let schema = Schema::map(
        "M",
        None,
        vec![Validator::warn_additional_keys(vec![s("a")], move |extra, keys, dct| {
            let mut out = seen2.lock().unwrap();
            for e in extra {
                out.push(e.to_string());
            }
            out.push(format!("{} {}", keys.len(), dct.len()));
        })],
    );
    let val = vmap(vec![(s("c"), Value::Null), (s("a"), Value::Null), (s("b"), Value::Null)]);
    validate(&val, &schema).unwrap();
    assert_eq!(*seen.lock().unwrap(), vec!["b".to_string(), "c".to_string(), "1 3".to_string()]);
}

#[test]
fn ensure_absent_with_optional_and_recurse() {
    let schema = Schema::map(
        "M",
        None,
        vec![
            Validator::conditional_optional_with_absent(
                "v",
                CheckFn::check_bool(),
                true,
                "t",
                ConditionValue::Exact(Value::Bool(true)),
                true,
            ),
            Validator::conditional_recurse_with_absent(
                "w",
                optional_schema(),
                "t",
                ConditionValue::Exact(Value::Bool(true)),
                true,
            ),
        ],
    );
    let err = validate(
        &vmap(vec![(s("t"), Value::Bool(false)), (s("v"), Value::Int(1))]),
        &schema,
    )
    .unwrap_err();
    assert_eq!(
        err.trace_parts(),
        vec!["At M()", "Expected v to be absent when t is not True, found v: 1"]
    );
    let err = validate(
        &vmap(vec![(s("t"), Value::Bool(false)), (s("w"), vmap(vec![]))]),
        &schema,
    )
    .unwrap_err();
    assert_eq!(
        err.trace_parts(),
        vec!["At M()", "Expected w to be absent when t is not True, found w: {}"]
    );
    validate(&vmap(vec![(s("v"), Value::Int(1))]), &schema).unwrap();
    let err = validate(&vmap(vec![(s("t"), Value::Bool(true))]), &schema).unwrap_err();
    assert_eq!(err.trace_parts(), vec!["At M()", "Missing required key: w"]);
}

#[test]
fn defaults_on_non_container_values() {
    assert_eq!(apply_defaults(&Value::Int(3), &optional_schema()), vmap(vec![(s("key"), Value::Bool(false))]));
    assert_eq!(apply_defaults(&Value::Null, &Schema::array(optional_schema())), Value::List(vec![]));
    assert_eq!(remove_defaults(&Value::Int(3), &optional_schema()), vmap(vec![]));
}

// ---- laws, on concrete values ----

#[test]
fn law_remove_undoes_apply_on_a_map_without_the_key() {
    let v = vmap(vec![(s("other"), Value::Int(1))]);
    let schema = optional_schema();
    let applied = apply_defaults(&v, &schema);
    assert_eq!(applied, vmap(vec![(s("other"), Value::Int(1)), (s("key"), Value::Bool(false))]));
    assert_eq!(remove_defaults(&applied, &schema), v);
}

#[test]
fn law_apply_defaults_is_idempotent_for_optional() {
    let schema = optional_schema();
    let once = apply_defaults(&vmap(vec![]), &schema);
    let twice = apply_defaults(&once, &schema);
    assert_eq!(once, twice);
}

#[test]
fn law_optional_passes_when_key_missing_and_required_fails() {
    validate(&vmap(vec![]), &optional_schema()).unwrap();
    let schema = Schema::map("R", None, vec![Validator::required(Value::Int(4), CheckFn::Any)]);
    let err = validate(&vmap(vec![]), &schema).unwrap_err();
    assert_eq!(err.trace_parts(), vec!["At R()", "Missing required key: 4"]);
}

#[test]
fn law_conditional_is_skipped_when_condition_fails() {
    let schema = Schema::map(
        "M",
        None,
        vec![Validator::conditional(
            "k",
            CheckFn::check_int(),
            "c",
            ConditionValue::In(vec![Value::Int(1)]),
        )],
    );
    validate(&vmap(vec![(s("c"), Value::Int(2)), (s("k"), s("x"))]), &schema).unwrap();
    validate(&vmap(vec![(s("k"), s("x"))]), &schema).unwrap();
    assert!(validate(&vmap(vec![(s("c"), Value::Int(1)), (s("k"), s("x"))]), &schema).is_err());
}

#[test]
fn law_apply_defaults_keeps_list_length_and_map_keys() {
    let list = Value::List(vec![vmap(vec![]), vmap(vec![(s("key"), Value::Bool(true))])]);
    let out = apply_defaults(&list, &Schema::array(optional_schema()));
    assert_eq!(out.as_list().map(|l| l.len()), Some(2));
    let kv = vmap(vec![(s("b"), vmap(vec![])), (s("a"), vmap(vec![]))]);
    let out = apply_defaults(&kv, &Schema::key_value_map("C", CheckFn::Any, optional_schema()));
    let m = out.as_map().unwrap();
    assert_eq!(m.get_index(0).map(|(k, _)| k.clone()), Some(s("b")));
    assert_eq!(m.get_index(1).map(|(k, _)| k.clone()), Some(s("a")));
}

// ---- loading ----

#[test]
fn load_reports_parse_errors_under_the_file() {
    let err = finish_load("cfg.json", Err("expected value".to_string()), &optional_schema()).unwrap_err();
    assert_eq!(err.trace_parts(), vec!["File cfg.json", "expected value"]);
}

#[test]
fn load_validates_and_applies_defaults() {
    let ret = finish_load("cfg.json", Ok(vmap(vec![])), &optional_schema()).unwrap();
    assert_eq!(ret, vmap(vec![(s("key"), Value::Bool(false))]));
    let err = finish_load(
        "cfg.json",
        Ok(vmap(vec![(s("key"), Value::Int(1))])),
        &optional_schema(),
    )
    .unwrap_err();
    assert_eq!(
        err.trace_parts(),
        vec!["File cfg.json", "At foo()", "At key: key", "Expected bool got int"]
    );
}

#[test]
fn not_a_file_message() {
    assert_eq!(not_a_file_error("cfg.json").trace_parts(), vec!["cfg.json is not a file"]);
}

// ---- copies ----

#[test]
fn cloned_schema_validates_and_fills_defaults_alike() {
    let source = Schema::map(
        "Config",
        Some(s("name")),
        vec![
            Validator::required("name", CheckFn::check_string()),
            Validator::optional("count", CheckFn::check_int(), 3),
            Validator::conditional(
                "extra",
                CheckFn::check_one_of(vec![s("a"), s("b")]),
                "name",
                ConditionValue::In(vec![s("x"), s("y")]),
            ),
            Validator::no_additional_keys(vec![s("name"), s("count"), s("extra")]),
        ],
    );
    let copy = source.clone();
    let good = vmap(vec![(s("name"), s("x")), (s("extra"), s("a"))]);
    let bad = vmap(vec![(s("name"), s("x")), (s("extra"), s("c"))]);
    assert!(validate(&good, &copy).is_ok());
    assert_eq!(
        validate(&bad, &copy).unwrap_err().to_string(),
        validate(&bad, &source).unwrap_err().to_string()
    );
    assert_eq!(apply_defaults(&good, &copy), apply_defaults(&good, &source));
    assert_eq!(
        apply_defaults(&good, &copy),
        vmap(vec![(s("name"), s("x")), (s("extra"), s("a")), (s("count"), Value::Int(3))])
    );
}

#[test]
fn cloned_check_fn_checks_alike() {
    let source = CheckFn::check_array(CheckFn::check_and(vec![
        CheckFn::check_int(),
        CheckFn::check_one_of(vec![Value::Int(1), Value::Int(2)]),
    ]));
    let copy = source.clone();
    let v = Value::List(vec![Value::Int(1), Value::Int(5)]);
    assert_eq!(
        copy.check(&v).unwrap_err().to_string(),
        "\n==> At index 1\n=====> Expected one of 1, 2 but got: 5"
    );
    assert_eq!(
        copy.check(&v).unwrap_err().to_string(),
        source.check(&v).unwrap_err().to_string()
    );
}

#[test]
fn cloned_custom_check_calls_the_same_function() {
    let seen = Arc::new(Mutex::new(0));
    let counter = seen.clone();
    let source = CheckFn::custom(move |_v: &Value| {
        *counter.lock().unwrap() += 1;
        Err(ValidationError::new("nope"))
    });
    let copy = source.clone();
    assert!(copy.check(&Value::Null).is_err());
    assert!(source.check(&Value::Null).is_err());
    assert_eq!(*seen.lock().unwrap(), 2);
}

#[test]
fn condition_values_compare_by_value() {
    assert_eq!(ConditionValue::Exact(s("a")), ConditionValue::Exact(s("a")));
    assert_ne!(ConditionValue::Exact(s("a")), ConditionValue::Not(s("a")));
    assert_eq!(
        ConditionValue::In(vec![Value::Int(1), s("b")]),
        ConditionValue::In(vec![Value::Int(1), s("b")])
    );
    assert_ne!(
        ConditionValue::NotIn(vec![Value::Int(1)]),
        ConditionValue::NotIn(vec![Value::Int(1), Value::Int(2)])
    );
    assert_eq!(ConditionValue::Not(Value::Null).clone(), ConditionValue::Not(Value::Null));
}

// ---- equality as an equivalence, and removing defaults ----

#[test]
fn law_equality_is_symmetric_and_transitive_on_nested_maps() {
    let a = vmap(vec![
        (s("x"), vmap(vec![(Value::Int(1), s("p")), (Value::Int(2), s("q"))])),
        (s("y"), Value::List(vec![Value::Null])),
    ]);
    let b = vmap(vec![
        (s("y"), Value::List(vec![Value::Null])),
        (s("x"), vmap(vec![(Value::Int(2), s("q")), (Value::Int(1), s("p"))])),
    ]);
    let c = vmap(vec![
        (s("x"), vmap(vec![(Value::Int(2), s("q")), (Value::Int(1), s("p"))])),
        (s("y"), Value::List(vec![Value::Null])),
    ]);
    assert_eq!(a, b);
    assert_eq!(b, a);
    assert_eq!(b, c);
    assert_eq!(a, c);
    let d = vmap(vec![(s("x"), Value::Int(1))]);
    assert_ne!(a, d);
    assert_ne!(d, a);
}

#[test]
fn law_remove_drops_only_a_default_valued_key() {
    let schema = optional_schema();
    let at_default = vmap(vec![(s("key"), Value::Bool(false)), (s("other"), Value::Int(1))]);
    assert_eq!(remove_defaults(&at_default, &schema), vmap(vec![(s("other"), Value::Int(1))]));
    let not_default = vmap(vec![(s("key"), Value::Bool(true)), (s("other"), Value::Int(1))]);
    assert_eq!(remove_defaults(&not_default, &schema), not_default);
    let mut m = ValueMap::new();
    m.insert(s("a"), Value::Int(1));
    m.insert(s("b"), Value::Int(2));
    assert_eq!(m.swap_remove(&s("a")), Some(Value::Int(1)));
    assert_eq!(m.get(&s("a")), None);
    assert_eq!(m.len(), 1);
}

#[test]
fn law_remove_defaults_undoes_apply_defaults_for_optional_keys() {
    let schema = Schema::map(
        "Config",
        None,
        vec![
            Validator::optional("a", CheckFn::check_int(), 1),
            Validator::optional("b", CheckFn::check_bool(), true),
            Validator::optional("c", CheckFn::check_string(), "x"),
        ],
    );
    let v = vmap(vec![(s("z"), Value::Int(9)), (s("y"), Value::Null)]);
    let applied = apply_defaults(&v, &schema);
    assert_eq!(
        applied,
        vmap(vec![
            (s("z"), Value::Int(9)),
            (s("y"), Value::Null),
            (s("a"), Value::Int(1)),
            (s("b"), Value::Bool(true)),
            (s("c"), s("x")),
        ])
    );
    let removed = remove_defaults(&applied, &schema);
    assert_eq!(removed, v);
    assert_eq!(removed.as_map().unwrap().get_index(0), Some((&s("z"), &Value::Int(9))));
    assert_eq!(removed.as_map().unwrap().get_index(1), Some((&s("y"), &Value::Null)));
}

#[test]
fn law_apply_defaults_twice_changes_nothing_for_optional_keys() {
    let schema = Schema::map(
        "Config",
        None,
        vec![
            Validator::optional("a", CheckFn::check_int(), 1),
            Validator::optional("b", CheckFn::check_bool(), true),
        ],
    );
    let v = vmap(vec![(s("b"), Value::Bool(false))]);
    let once = apply_defaults(&v, &schema);
    assert_eq!(once, vmap(vec![(s("b"), Value::Bool(false)), (s("a"), Value::Int(1))]));
    assert_eq!(apply_defaults(&once, &schema), once);
    let not_a_map = apply_defaults(&Value::Int(3), &schema);
    assert_eq!(not_a_map, vmap(vec![(s("a"), Value::Int(1)), (s("b"), Value::Bool(true))]));
    assert_eq!(apply_defaults(&not_a_map, &schema), not_a_map);
}

#[test]
fn custom_checks_see_each_element_and_stop_at_the_first_failure() {
    let seen: Arc<Mutex<Vec<Value>>> = Arc::new(Mutex::new(Vec::new()));
    let seen2 = seen.clone();
    let positive = CheckFn::custom(move |v: &Value| {
        seen2.lock().unwrap().push(v.clone());
        match v {
            Value::Int(i) if *i > 0 => Ok(()),
            _ => Err(ValidationError::new("must be positive")),
        }
    });
    let check = CheckFn::check_array(positive);
    let err = check
        .check(&Value::List(vec![Value::Int(2), Value::Int(-1), Value::Int(5)]))
        .unwrap_err();
    assert_eq!(err.trace_parts(), vec!["At index 1", "must be positive"]);
    assert_eq!(*seen.lock().unwrap(), vec![Value::Int(2), Value::Int(-1)]);

    let calls = Arc::new(Mutex::new(0));
    let calls2 = calls.clone();
    let later = CheckFn::custom(move |_v: &Value| {
        *calls2.lock().unwrap() += 1;
        Ok(())
    });
    let both = CheckFn::check_and(vec![CheckFn::check_int(), later]);
    assert_eq!(both.check(&s("x")).unwrap_err().trace_parts(), vec!["Expected int got str"]);
    assert_eq!(*calls.lock().unwrap(), 0);
    both.check(&Value::Int(1)).unwrap();
    assert_eq!(*calls.lock().unwrap(), 1);
}

#[test]
fn errors_built_from_text_keep_their_text() {
    let e = ValidationError::new("error msg").with_context("At line 1").with_context(String::from("In file foo"));
    assert_eq!(e.message(), "In file foo");
    assert_eq!(e.trace_parts(), vec!["In file foo", "At line 1", "error msg"]);
    assert_eq!(e.to_string(), "\n==> In file foo\n==> At line 1\n=====> error msg");
    assert_eq!(Value::from("abc"), s("abc"));
}

#[test]
fn law_round_trip_with_required_keys_and_set_optionals() {
    let schema = Schema::map(
        "Config",
        None,
        vec![
            Validator::required("name", CheckFn::check_string()),
            Validator::optional("a", CheckFn::check_int(), 1),
            Validator::optional_no_default("note", CheckFn::check_string()),
            Validator::optional("b", CheckFn::check_bool(), true),
        ],
    );
    let v = vmap(vec![(s("name"), s("x")), (s("a"), Value::Int(7)), (s("z"), Value::Null)]);
    let applied = apply_defaults(&v, &schema);
    assert_eq!(
        applied,
        vmap(vec![
            (s("name"), s("x")),
            (s("a"), Value::Int(7)),
            (s("z"), Value::Null),
            (s("b"), Value::Bool(true)),
        ])
    );
    assert_eq!(remove_defaults(&applied, &schema), v);
}

#[test]
fn law_apply_defaults_twice_changes_nothing_for_nested_schemas() {
    let inner = Schema::map(
        "Inner",
        None,
        vec![
            Validator::optional("x", CheckFn::check_int(), 0),
            Validator::conditional_optional("y", CheckFn::check_int(), 5, "mode", ConditionValue::Exact(s("on"))),
        ],
    );
    let schema = Schema::map(
        "Outer",
        None,
        vec![
            Validator::optional_recurse("inner", inner.clone(), vmap(vec![])),
            Validator::required_recurse("list_holder", Schema::map("H", None, vec![])),
            Validator::optional("flag", CheckFn::check_bool(), false),
        ],
    );
    let v = vmap(vec![
        (s("list_holder"), vmap(vec![])),
        (s("inner"), vmap(vec![(s("mode"), s("on"))])),
    ]);
    let once = apply_defaults(&v, &schema);
    assert_eq!(apply_defaults(&once, &schema), once);
    let arr = Schema::array(inner);
    let lv = Value::List(vec![vmap(vec![(s("mode"), s("on"))]), Value::Null]);
    let once = apply_defaults(&lv, &arr);
    assert_eq!(apply_defaults(&once, &arr), once);
}
