use std::sync::Arc;

use vstd::prelude::*;

use crate::error::ValidationError;
use crate::text::{
    append_displays_joined, append_nat, displays, join, nat_text, repr_spec, sort_by_display,
    sort_values_by_display,
};
use crate::value::{copy_values, seq_has, type_label_spec, values_view, SpecValue, Value};

verus! {

/// The outcome of a check in the model: `Some(Ok(()))` when it passes,
/// `Some(Err(trace))` when it fails with the error trace `trace` (outermost
/// context first), and `None` when a user-provided function decides.
pub type Outcome = Option<Result<(), Seq<Seq<char>>>>;

/// A failure whose trace is the single message `msg`.
pub open spec fn fail(msg: Seq<char>) -> Outcome {
    Some(Err(seq![msg]))
}

/// The outcome with the context `c` put in front of a failure's trace.
pub open spec fn with_ctx(o: Outcome, c: Seq<char>) -> Outcome {
    match o {
        Some(Err(t)) => Some(Err(seq![c] + t)),
        _ => o,
    }
}

/// The result `r` with the context `c` put in front of a failure's trace.
pub open spec fn res_with_ctx(r: Result<(), Seq<Seq<char>>>, c: Seq<char>) -> Result<
    (),
    Seq<Seq<char>>,
> {
    match r {
        Err(t) => Err(seq![c] + t),
        Ok(()) => Ok(()),
    }
}

/// The model of a check's result: its error is taken by its trace.
pub open spec fn result_view(r: Result<(), ValidationError>) -> Result<(), Seq<Seq<char>>> {
    match r {
        Ok(()) => Ok(()),
        Err(e) => Err(e@),
    }
}

/// `r` is the result that the outcome `o` gives, wherever `o` gives one.
pub open spec fn meets(o: Outcome, r: Result<(), ValidationError>) -> bool {
    o matches Some(x) ==> result_view(r) == x
}

/// The type of a Value, used for type-checking.
#[derive(Debug, Clone, Copy, PartialEq, Eq, Structural)]
pub enum ValueType {
    Bool,
    Int,
    Float,
    String,
    Bytes,
}

impl ValueType {
    /// The name of the type in error messages.
    pub open spec fn name_spec(self) -> Seq<char> {
        match self {
            ValueType::Bool => "bool"@,
            ValueType::Int => "int"@,
            ValueType::Float => "float"@,
            ValueType::String => "str"@,
            ValueType::Bytes => "bytes"@,
        }
    }

    /// The value is of this type.
    pub open spec fn matches_spec(self, v: SpecValue) -> bool {
        match (self, v) {
            (ValueType::Bool, SpecValue::Bool(_)) => true,
            (ValueType::Int, SpecValue::Int(_)) => true,
            (ValueType::Float, SpecValue::Float(_, _)) => true,
            (ValueType::String, SpecValue::String(_)) => true,
            (ValueType::Bytes, SpecValue::Bytes(_)) => true,
            _ => false,
        }
    }

    fn name(self) -> (r: &'static str)
        ensures
            r@ == self.name_spec(),
    {
        match self {
            ValueType::Bool => "bool",
            ValueType::Int => "int",
            ValueType::Float => "float",
            ValueType::String => "str",
            ValueType::Bytes => "bytes",
        }
    }

    fn matches(self, value: &Value) -> (r: bool)
        ensures
            r == self.matches_spec(value@),
    {
        match (self, value) {
            (ValueType::Bool, Value::Bool(_)) => true,
            (ValueType::Int, Value::Int(_)) => true,
            (ValueType::Float, Value::Float(_, _)) => true,
            (ValueType::String, Value::String(_)) => true,
            (ValueType::Bytes, Value::Bytes(_)) => true,
            _ => false,
        }
    }
}

/// `r` is a result that the user-provided function `f` gives when handed a
/// value whose model is `v` (a function may give several).
pub uninterp spec fn custom_gives(f: CustomCheckFn, v: SpecValue, r: Result<(), Seq<Seq<char>>>) -> bool;

/// A user-provided custom check function.
#[verifier::external_body]
pub struct CustomCheckFn {
    f: Arc<dyn Fn(&Value) -> Result<(), ValidationError> + Send + Sync>,
}

impl CustomCheckFn {
    /// Holds the user's function (`Arc::new`).
    #[verifier::external_body]
    pub fn new<F>(f: F) -> CustomCheckFn where
        F: Fn(&Value) -> Result<(), ValidationError> + Send + Sync + 'static,
     {
        CustomCheckFn { f: Arc::new(f) }
    }

    /// Calls the user's function on `value`.  What it returns is one of the
    /// results the function gives on that value (`custom_gives`); nothing
    /// more is known of it.
    #[verifier::external_body]
    fn call(&self, value: &Value) -> (r: Result<(), ValidationError>)
        ensures
            custom_gives(*self, value@, result_view(r)),
    {
        (self.f)(value)
    }
}

impl Clone for CustomCheckFn {
    /// Another handle to the same function (`Arc::clone`).
    #[verifier::external_body]
    fn clone(&self) -> (r: Self)
        ensures
            r == *self,
    {
        CustomCheckFn { f: Arc::clone(&self.f) }
    }
}

/// Whether `regex::Regex::new` accepts the pattern.
pub uninterp spec fn regex_compiles(pattern: Seq<char>) -> bool;

/// Compiles the pattern with `regex::Regex::new` and tells whether that
/// succeeded; the result is the name `regex_compiles` of the pattern.
#[verifier::external_body]
fn regex_accepts(pattern: &str) -> (r: bool)
    ensures
        r == regex_compiles(pattern@),
{
    regex::Regex::new(pattern).is_ok()
}

/// A check function that validates a single value.
pub enum CheckFn {
    /// Accepts any value (noop).
    Any,
    /// Checks that the value is of a specific type.
    /// The optional string overrides the type name in error messages.
    Type(ValueType, Option<&'static str>),
    /// Checks that the value is one of the given possibilities.
    OneOf(Vec<Value>),
    /// Checks that the value is a valid regex.
    Regex,
    /// Checks that the value is a list and each element passes the inner check.
    Array(Box<CheckFn>),
    /// Composes multiple check functions — all must pass.
    And(Vec<CheckFn>),
    /// A user-provided custom check function.
    Custom(CustomCheckFn),
}

/// The type name expected by a type check.
pub open spec fn expected_name(t: ValueType, name: Option<&'static str>) -> Seq<char> {
    match name {
        Some(n) => n@,
        None => t.name_spec(),
    }
}

/// The message of a failed one-of check.
pub open spec fn one_of_message(possible: Seq<SpecValue>, v: SpecValue) -> Seq<char> {
    "Expected one of "@ + join(displays(sort_by_display(possible)), ", "@) + " but got: "@
        + repr_spec(v)
}

/// The outcome of the regex check on a string whose compiling gave `compiles`.
pub open spec fn regex_verdict_spec(pattern: Seq<char>, compiles: bool) -> Result<
    (),
    Seq<Seq<char>>,
> {
    if compiles {
        Ok(())
    } else {
        Err(seq!["'"@ + pattern + "' is not a valid python regex"@])
    }
}

/// The outcome of a check function on a value.
pub open spec fn check_outcome(cf: CheckFn, v: SpecValue) -> Outcome
    decreases cf, 0nat,
{
    match cf {
        CheckFn::Any => Some(Ok(())),
        CheckFn::Type(t, name) => if t.matches_spec(v) {
            Some(Ok(()))
        } else {
            fail("Expected "@ + expected_name(t, name) + " got "@ + type_label_spec(v))
        },
        CheckFn::OneOf(possible) => if seq_has(values_view(possible@), v) {
            Some(Ok(()))
        } else {
            fail(one_of_message(values_view(possible@), v))
        },
        CheckFn::Regex => match v {
            SpecValue::String(s) => Some(regex_verdict_spec(s, regex_compiles(s))),
            _ => fail("Expected string got "@ + type_label_spec(v)),
        },
        CheckFn::Array(inner) => match v {
            SpecValue::List(l) => array_outcome(*inner, l, 0),
            _ => fail("Expected array but got '"@ + type_label_spec(v) + "'"@),
        },
        CheckFn::And(fns) => and_outcome(fns@, v, 0),
        CheckFn::Custom(_) => None,
    }
}

/// The outcome of checking the elements of `l` from index `i` on: the first
/// failure, with its index as context.
pub open spec fn array_outcome(inner: CheckFn, l: Seq<SpecValue>, i: nat) -> Outcome
    decreases inner, l.len() - i,
{
    if i >= l.len() {
        Some(Ok(()))
    } else {
        match with_ctx(check_outcome(inner, l[i as int]), "At index "@ + nat_text(i)) {
            Some(Ok(())) => array_outcome(inner, l, i + 1),
            o => o,
        }
    }
}

/// The outcome of the check functions from index `i` on: the first failure.
pub open spec fn and_outcome(fns: Seq<CheckFn>, v: SpecValue, i: nat) -> Outcome
    decreases fns, fns.len() - i,
{
    if i >= fns.len() {
        Some(Ok(()))
    } else {
        match check_outcome(fns[i as int], v) {
            Some(Ok(())) => and_outcome(fns, v, i + 1),
            o => o,
        }
    }
}

/// The result is a pass.
pub open spec fn passed(r: Result<(), Seq<Seq<char>>>) -> bool {
    r is Ok
}

/// `r` is a result that checking `v` with `cf` can give, whatever the
/// user-provided functions in `cf` return: each user function is handed the
/// value it checks, and its result is combined as the other checks' are.
pub open spec fn check_gives(cf: CheckFn, v: SpecValue, r: Result<(), Seq<Seq<char>>>) -> bool
    decreases cf, 0nat,
{
    match cf {
        CheckFn::Custom(f) => custom_gives(f, v, r),
        CheckFn::Array(inner) => match v {
            SpecValue::List(l) => array_gives(*inner, l, 0, r),
            _ => Some(r) == check_outcome(cf, v),
        },
        CheckFn::And(fns) => and_gives(fns@, v, 0, r),
        _ => Some(r) == check_outcome(cf, v),
    }
}

/// `r` is a result that checking the elements of `l` from index `i` on can
/// give: the elements are checked in order, and the first failure, with its
/// index as context, is the result.
pub open spec fn array_gives(inner: CheckFn, l: Seq<SpecValue>, i: nat, r: Result<(), Seq<Seq<char>>>) -> bool
    decreases inner, l.len() - i,
{
    if i >= l.len() {
        r == Ok::<(), Seq<Seq<char>>>(())
    } else {
        exists|r0: Result<(), Seq<Seq<char>>>|
            #![trigger res_with_ctx(r0, "At index "@ + nat_text(i))]
            check_gives(inner, l[i as int], r0) && match res_with_ctx(
                r0,
                "At index "@ + nat_text(i),
            ) {
                Ok(()) => array_gives(inner, l, i + 1, r),
                e => r == e,
            }
    }
}

/// `r` is a result that checking `v` with the functions from index `i` on
/// can give: they run in order, and the first failure is the result.
pub open spec fn and_gives(fns: Seq<CheckFn>, v: SpecValue, i: nat, r: Result<(), Seq<Seq<char>>>) -> bool
    decreases fns, fns.len() - i,
{
    if i >= fns.len() {
        r == Ok::<(), Seq<Seq<char>>>(())
    } else {
        exists|r0: Result<(), Seq<Seq<char>>>|
            check_gives(fns[i as int], v, r0) && if #[trigger] passed(r0) {
                and_gives(fns, v, i + 1, r)
            } else {
                r == r0
            }
    }
}

proof fn lemma_array_gives_step(
    inner: CheckFn,
    l: Seq<SpecValue>,
    i: nat,
    r0: Result<(), Seq<Seq<char>>>,
    r: Result<(), Seq<Seq<char>>>,
)
    requires
        i < l.len(),
        check_gives(inner, l[i as int], r0),
        match res_with_ctx(r0, "At index "@ + nat_text(i)) {
            Ok(()) => array_gives(inner, l, i + 1, r),
            e => r == e,
        },
    ensures
        array_gives(inner, l, i, r),
{
}

proof fn lemma_and_gives_step(
    fns: Seq<CheckFn>,
    v: SpecValue,
    i: nat,
    r0: Result<(), Seq<Seq<char>>>,
    r: Result<(), Seq<Seq<char>>>,
)
    requires
        i < fns.len(),
        check_gives(fns[i as int], v, r0),
        if passed(r0) {
            and_gives(fns, v, i + 1, r)
        } else {
            r == r0
        },
    ensures
        and_gives(fns, v, i, r),
{
}

/// The regex check's verdict on `pattern`, given whether it compiled.
pub fn regex_verdict(pattern: &str, compiles: bool) -> (r: Result<(), ValidationError>)
    ensures
        result_view(r) == regex_verdict_spec(pattern@, compiles),
{
    if compiles {
        Ok(())
    } else {
        let mut msg = String::new();
        msg.append("'");
        msg.append(pattern);
        msg.append("' is not a valid python regex");
        let e = ValidationError::leaf(msg);
        assert(e@ =~= seq!["'"@ + pattern@ + "' is not a valid python regex"@]);
        Err(e)
    }
}

fn type_error(expected: &str, value: &Value) -> (r: ValidationError)
    ensures
        r@ == seq!["Expected "@ + expected@ + " got "@ + type_label_spec(value@)],
{
    let mut msg = String::new();
    msg.append("Expected ");
    msg.append(expected);
    msg.append(" got ");
    msg.append(value.type_label());
    ValidationError::leaf(msg)
}

impl CheckFn {
    /// Validate a value against this check function.
    pub fn check(&self, value: &Value) -> (r: Result<(), ValidationError>)
        ensures
            meets(check_outcome(*self, value@), r),
            check_gives(*self, value@, result_view(r)),
        decreases self, 0nat,
    {
        match self {
            CheckFn::Any => Ok(()),
            CheckFn::Type(expected_type, typename_override) => {
                if expected_type.matches(value) {
                    Ok(())
                } else {
                    let expected = match typename_override {
                        Some(n) => *n,
                        None => expected_type.name(),
                    };
                    Err(type_error(expected, value))
                }
            },
            CheckFn::OneOf(possible) => {
                let mut i: usize = 0;
                while i < possible.len()
                    invariant
                        0 <= i <= possible.len(),
                        forall|k: int| 0 <= k < i ==> !veq_of(#[trigger] possible@[k], *value),
                        *self == CheckFn::OneOf(*possible),
                    decreases possible.len() - i,
                {
                    if possible[i] == *value {
                        proof {
                            assert(values_view(possible@)[i as int] == possible@[i as int]@);
                            assert(crate::value::veq(values_view(possible@)[i as int], value@));
                            assert(seq_has(values_view(possible@), value@));
                        }
                        return Ok(());
                    }
                    i = i + 1;
                }
                proof {
                    assert forall|k: int| 0 <= k < possible@.len() implies !crate::value::veq(
                        #[trigger] values_view(possible@)[k],
                        value@,
                    ) by {
                        assert(!veq_of(possible@[k], *value));
                    }
                }
                let sorted = sort_values_by_display(possible);
                let mut msg = String::new();
                msg.append("Expected one of ");
                append_displays_joined(&mut msg, &sorted, ", ");
                msg.append(" but got: ");
                value.append_repr(&mut msg);
                let e = ValidationError::leaf(msg);
                assert(e@ =~= seq![one_of_message(values_view(possible@), value@)]);
                Err(e)
            },
            CheckFn::Regex => {
                match value {
                    Value::String(s) => regex_verdict(s.as_str(), regex_accepts(s.as_str())),
                    _ => {
                        let mut msg = String::new();
                        msg.append("Expected string got ");
                        msg.append(value.type_label());
                        let e = ValidationError::leaf(msg);
                        assert(e@ =~= seq!["Expected string got "@ + type_label_spec(value@)]);
                        Err(e)
                    },
                }
            },
            CheckFn::Array(inner_check) => {
                let list = match value {
                    Value::List(l) => l,
                    _ => {
                        let mut msg = String::new();
                        msg.append("Expected array but got '");
                        msg.append(value.type_label());
                        msg.append("'");
                        let e = ValidationError::leaf(msg);
                        assert(e@ =~= seq![
                            "Expected array but got '"@ + type_label_spec(value@) + "'"@,
                        ]);
                        return Err(e);
                    },
                };
                let ghost l = value@->List_0;
                let mut i: usize = 0;
                while i < list.len()
                    invariant
                        0 <= i <= list.len(),
                        *value == Value::List(*list),
                        *self == CheckFn::Array(*inner_check),
                        l == value@->List_0,
                        l.len() == list@.len(),
                        array_outcome(**inner_check, l, 0) == array_outcome(
                            **inner_check,
                            l,
                            i as nat,
                        ) || array_outcome(**inner_check, l, 0) is None,
                        forall|res: Result<(), Seq<Seq<char>>>|
                            #[trigger] array_gives(**inner_check, l, i as nat, res) ==> array_gives(
                                **inner_check,
                                l,
                                0,
                                res,
                            ),
                    decreases list.len() - i,
                {
                    proof {
                        assert(l[i as int] == list@[i as int]@);
                        assert(decreases_to!(*self => **inner_check));
                    }
                    let r = inner_check.check(&list[i]);
                    match r {
                        Ok(()) => {},
                        Err(e) => {
                            let mut c = String::new();
                            c.append("At index ");
                            append_nat(&mut c, i as u64);
                            assert(c@ =~= "At index "@ + nat_text(i as nat));
                            let w = e.wrap(c);
                            proof {
                                let o = check_outcome(**inner_check, l[i as int]);
                                if o is Some {
                                    assert(o == Some(Err::<(), Seq<Seq<char>>>(e@)));
                                    assert(with_ctx(o, c@) == Some(Err::<(), Seq<Seq<char>>>(w@)));
                                    assert(array_outcome(**inner_check, l, i as nat) == with_ctx(o, c@));
                                }
                                let r0 = Err::<(), Seq<Seq<char>>>(e@);
                                assert(check_gives(**inner_check, l[i as int], r0));
                                assert(res_with_ctx(r0, c@) == Err::<(), Seq<Seq<char>>>(w@));
                                lemma_array_gives_step(**inner_check, l, i as nat, r0, Err(w@));
                            }
                            return Err(w);
                        },
                    }
                    proof {
                        let r0 = Ok::<(), Seq<Seq<char>>>(());
                        assert(check_gives(**inner_check, l[i as int], r0));
                        assert forall|res: Result<(), Seq<Seq<char>>>|
                            #[trigger] array_gives(**inner_check, l, (i + 1) as nat, res) implies array_gives(
                            **inner_check,
                            l,
                            0,
                            res,
                        ) by {
                            lemma_array_gives_step(**inner_check, l, i as nat, r0, res);
                        }
                    }
                    i = i + 1;
                }
                proof {
                    assert(array_gives(**inner_check, l, i as nat, Ok(())));
                }
                Ok(())
            },
            CheckFn::And(fns) => {
                let mut i: usize = 0;
                while i < fns.len()
                    invariant
                        0 <= i <= fns.len(),
                        and_outcome(fns@, value@, 0) == and_outcome(fns@, value@, i as nat)
                            || and_outcome(fns@, value@, 0) is None,
                        *self == CheckFn::And(*fns),
                        forall|res: Result<(), Seq<Seq<char>>>|
                            #[trigger] and_gives(fns@, value@, i as nat, res) ==> and_gives(
                                fns@,
                                value@,
                                0,
                                res,
                            ),
                    decreases fns.len() - i,
                {
                    proof {
                        assert(decreases_to!(*self => fns@[i as int]));
                    }
                    match fns[i].check(value) {
                        Ok(()) => {},
                        Err(e) => {
                            proof {
                                let r0 = Err::<(), Seq<Seq<char>>>(e@);
                                assert(check_gives(fns@[i as int], value@, r0));
                                lemma_and_gives_step(fns@, value@, i as nat, r0, r0);
                            }
                            return Err(e);
                        },
                    }
                    proof {
                        let r0 = Ok::<(), Seq<Seq<char>>>(());
                        assert(check_gives(fns@[i as int], value@, r0));
                        assert forall|res: Result<(), Seq<Seq<char>>>|
                            #[trigger] and_gives(fns@, value@, (i + 1) as nat, res) implies and_gives(
                            fns@,
                            value@,
                            0,
                            res,
                        ) by {
                            lemma_and_gives_step(fns@, value@, i as nat, r0, res);
                        }
                    }
                    i = i + 1;
                }
                proof {
                    assert(and_gives(fns@, value@, i as nat, Ok(())));
                }
                Ok(())
            },
            CheckFn::Custom(f) => f.call(value),
        }
    }

    // --- Convenience constructors ---
    /// Checks that the value is a bool.
    pub fn check_bool() -> (r: Self)
        ensures
            r == CheckFn::Type(ValueType::Bool, None),
    {
        CheckFn::Type(ValueType::Bool, None)
    }

    /// Checks that the value is an integer.
    pub fn check_int() -> (r: Self)
        ensures
            r == CheckFn::Type(ValueType::Int, None),
    {
        CheckFn::Type(ValueType::Int, None)
    }

    /// Checks that the value is a string (named `string` in messages).
    pub fn check_string() -> (r: Self)
        ensures
            r matches CheckFn::Type(ValueType::String, Some(n)) && n@ == "string"@,
    {
        CheckFn::Type(ValueType::String, Some("string"))
    }

    /// Checks that the value is a string (named `text` in messages).
    pub fn check_text() -> (r: Self)
        ensures
            r matches CheckFn::Type(ValueType::String, Some(n)) && n@ == "text"@,
    {
        CheckFn::Type(ValueType::String, Some("text"))
    }

    /// Checks that the value is a byte string.
    pub fn check_bytes() -> (r: Self)
        ensures
            r matches CheckFn::Type(ValueType::Bytes, Some(n)) && n@ == "bytes"@,
    {
        CheckFn::Type(ValueType::Bytes, Some("bytes"))
    }

    /// Checks that the value is of type `vt`, named `typename` in messages when given.
    pub fn check_type(vt: ValueType, typename: Option<&'static str>) -> (r: Self)
        ensures
            r == CheckFn::Type(vt, typename),
    {
        CheckFn::Type(vt, typename)
    }

    /// Checks that the value equals one of `possible`.
    pub fn check_one_of(possible: Vec<Value>) -> (r: Self)
        ensures
            r == CheckFn::OneOf(possible),
    {
        CheckFn::OneOf(possible)
    }

    /// Checks that the value is a string that compiles as a regex.
    pub fn check_regex() -> (r: Self)
        ensures
            r == CheckFn::Regex,
    {
        CheckFn::Regex
    }

    /// Checks that the value is a list whose elements all pass `inner`.
    pub fn check_array(inner: CheckFn) -> (r: Self)
        ensures
            r == CheckFn::Array(Box::new(inner)),
    {
        CheckFn::Array(Box::new(inner))
    }

    /// Checks the value with each of `fns` in turn.
    pub fn check_and(fns: Vec<CheckFn>) -> (r: Self)
        ensures
            r == CheckFn::And(fns),
    {
        CheckFn::And(fns)
    }

    /// Checks the value with the user-provided function `f`.
    pub fn custom<F>(f: F) -> (r: Self) where
        F: Fn(&Value) -> Result<(), ValidationError> + Send + Sync + 'static,

        ensures
            r is Custom,
    {
        CheckFn::Custom(CustomCheckFn::new(f))
    }
}

/// `b` is a copy of `a`: the same variant, with the same values (by their
/// models) and copies of the nested check functions.
pub open spec fn same_check(a: CheckFn, b: CheckFn) -> bool
    decreases a,
{
    match (a, b) {
        (CheckFn::Any, CheckFn::Any) => true,
        (CheckFn::Type(t, n), CheckFn::Type(u, m)) => t == u && n == m,
        (CheckFn::OneOf(p), CheckFn::OneOf(q)) => values_view(p@) == values_view(q@),
        (CheckFn::Regex, CheckFn::Regex) => true,
        (CheckFn::Array(x), CheckFn::Array(y)) => same_check(*x, *y),
        (CheckFn::And(xs), CheckFn::And(ys)) => same_checks(xs@, ys@),
        (CheckFn::Custom(c), CheckFn::Custom(d)) => c == d,
        _ => false,
    }
}

/// `ys` copies `xs` element by element.
pub open spec fn same_checks(xs: Seq<CheckFn>, ys: Seq<CheckFn>) -> bool
    decreases xs,
{
    xs.len() == ys.len() && forall|i: int| 0 <= i < xs.len() ==> same_check(#[trigger] xs[i], ys[i])
}

impl CheckFn {
    /// A copy of the check function.
    pub fn duplicate(&self) -> (r: CheckFn)
        ensures
            same_check(*self, r),
        decreases self,
    {
        match self {
            CheckFn::Any => CheckFn::Any,
            CheckFn::Type(t, n) => CheckFn::Type(*t, *n),
            CheckFn::OneOf(possible) => CheckFn::OneOf(copy_values(possible)),
            CheckFn::Regex => CheckFn::Regex,
            CheckFn::Array(inner) => CheckFn::Array(Box::new(inner.duplicate())),
            CheckFn::And(fns) => {
                let mut copy: Vec<CheckFn> = Vec::new();
                let mut i: usize = 0;
                while i < fns.len()
                    invariant
                        0 <= i <= fns.len(),
                        *self == CheckFn::And(*fns),
                        copy@.len() == i,
                        forall|k: int| 0 <= k < i ==> same_check(fns@[k], #[trigger] copy@[k]),
                    decreases fns.len() - i,
                {
                    proof {
                        assert(decreases_to!(*self => self->And_0@[i as int]));
                    }
                    copy.push(fns[i].duplicate());
                    i = i + 1;
                }
                let r = CheckFn::And(copy);
                assert(same_checks(fns@, copy@));
                assert(same_check(*self, r));
                r
            },
            CheckFn::Custom(c) => CheckFn::Custom(c.clone()),
        }
    }
}

impl Clone for CheckFn {
    fn clone(&self) -> (r: Self)
        ensures
            same_check(*self, r),
    {
        self.duplicate()
    }
}

/// `a` equals `b` as values.
pub open spec fn veq_of(a: Value, b: Value) -> bool {
    crate::value::veq(a@, b@)
}

} // verus!
