use vstd::prelude::*;
use vstd::std_specs::cmp::PartialEqSpecImpl;

use crate::text::{append_displays_joined, display_spec, displays, join};
use crate::value::{copy_values, seq_has, values_view, veq, SpecValue, Value};

verus! {

/// A condition value used in `Conditional` validators.
///
/// Determines whether a conditional check should fire based on the value
/// of a condition key in the map being validated.
#[derive(Debug)]
pub enum ConditionValue {
    /// Matches when the value equals exactly this value.
    Exact(Value),
    /// Matches when the value is present and not equal to the given value.
    Not(Value),
    /// Matches when the value is present and contained in the set.
    In(Vec<Value>),
    /// Matches when the value is present and not contained in the set.
    NotIn(Vec<Value>),
}

/// Whether the condition holds of the value found under the condition key
/// (`None` when the key is missing).
pub open spec fn cond_matches(c: ConditionValue, found: Option<SpecValue>) -> bool {
    match found {
        None => false,
        Some(v) => match c {
            ConditionValue::Exact(expected) => veq(v, expected@),
            ConditionValue::Not(excluded) => !veq(v, excluded@),
            ConditionValue::In(values) => seq_has(values_view(values@), v),
            ConditionValue::NotIn(values) => !seq_has(values_view(values@), v),
        },
    }
}

/// The two sequences hold equal values, position by position.
pub open spec fn values_veq(a: Seq<SpecValue>, b: Seq<SpecValue>) -> bool {
    a.len() == b.len() && forall|i: int| 0 <= i < a.len() ==> veq(#[trigger] a[i], b[i])
}

/// Condition equality: the same variant, with equal values.
pub open spec fn cond_eq(a: ConditionValue, b: ConditionValue) -> bool {
    match (a, b) {
        (ConditionValue::Exact(x), ConditionValue::Exact(y)) => veq(x@, y@),
        (ConditionValue::Not(x), ConditionValue::Not(y)) => veq(x@, y@),
        (ConditionValue::In(xs), ConditionValue::In(ys)) => values_veq(
            values_view(xs@),
            values_view(ys@),
        ),
        (ConditionValue::NotIn(xs), ConditionValue::NotIn(ys)) => values_veq(
            values_view(xs@),
            values_view(ys@),
        ),
        _ => false,
    }
}

/// `b` is a copy of `a`: the same variant, with the same values.
pub open spec fn same_condition(a: ConditionValue, b: ConditionValue) -> bool {
    match (a, b) {
        (ConditionValue::Exact(x), ConditionValue::Exact(y)) => x@ == y@,
        (ConditionValue::Not(x), ConditionValue::Not(y)) => x@ == y@,
        (ConditionValue::In(xs), ConditionValue::In(ys)) => values_view(xs@) == values_view(ys@),
        (ConditionValue::NotIn(xs), ConditionValue::NotIn(ys)) => values_view(xs@) == values_view(
            ys@,
        ),
        _ => false,
    }
}

/// The model of an optional reference to a value.
pub open spec fn opt_view(o: Option<&Value>) -> Option<SpecValue> {
    match o {
        Some(v) => Some(v@),
        None => None,
    }
}

/// The values as a tuple: `(a, b, c)`.
pub open spec fn tuple_text(values: Seq<SpecValue>) -> Seq<char> {
    "("@ + join(displays(values), ", "@) + ")"@
}

/// The description of the opposite condition.
pub open spec fn describe_opposite_spec(c: ConditionValue) -> Seq<char> {
    match c {
        ConditionValue::Exact(val) => "is not "@ + display_spec(val@),
        ConditionValue::Not(val) => "is "@ + display_spec(val@),
        ConditionValue::In(values) => "is not any of "@ + tuple_text(values_view(values@)),
        ConditionValue::NotIn(values) => "is any of "@ + tuple_text(values_view(values@)),
    }
}

fn contains_value(values: &Vec<Value>, v: &Value) -> (r: bool)
    ensures
        r == seq_has(values_view(values@), v@),
{
    let mut i: usize = 0;
    while i < values.len()
        invariant
            0 <= i <= values.len(),
            forall|k: int| 0 <= k < i ==> !veq(#[trigger] values_view(values@)[k], v@),
        decreases values.len() - i,
    {
        proof {
            assert(values_view(values@)[i as int] == values@[i as int]@);
        }
        if values[i] == *v {
            return true;
        }
        i = i + 1;
    }
    false
}

fn values_equal(xs: &Vec<Value>, ys: &Vec<Value>) -> (r: bool)
    ensures
        r == values_veq(values_view(xs@), values_view(ys@)),
{
    if xs.len() != ys.len() {
        return false;
    }
    let mut i: usize = 0;
    while i < xs.len()
        invariant
            0 <= i <= xs.len(),
            xs.len() == ys.len(),
            forall|k: int| 0 <= k < i ==> veq(#[trigger] values_view(xs@)[k], values_view(ys@)[k]),
        decreases xs.len() - i,
    {
        if !(xs[i] == ys[i]) {
            proof {
                assert(values_view(xs@)[i as int] == xs@[i as int]@);
                assert(values_view(ys@)[i as int] == ys@[i as int]@);
            }
            return false;
        }
        i = i + 1;
    }
    true
}

fn append_tuple(out: &mut String, values: &Vec<Value>)
    ensures
        final(out)@ == old(out)@ + tuple_text(values_view(values@)),
{
    out.append("(");
    append_displays_joined(out, values, ", ");
    out.append(")");
    assert(final(out)@ =~= old(out)@ + tuple_text(values_view(values@)));
}

impl ConditionValue {
    /// Check whether `value` matches this condition.
    /// `None` represents a missing key.
    pub fn matches(&self, value: Option<&Value>) -> (r: bool)
        ensures
            r == cond_matches(*self, opt_view(value)),
    {
        match value {
            None => false,
            Some(v) => match self {
                ConditionValue::Exact(expected) => *v == *expected,
                ConditionValue::Not(excluded) => !(*v == *excluded),
                ConditionValue::In(values) => contains_value(values, v),
                ConditionValue::NotIn(values) => !contains_value(values, v),
            },
        }
    }

    /// Describe the opposite condition, used in `ensure_absent` error messages.
    ///
    /// For `Not(True)`, produces `"is True"`.
    /// For `In(1, 2)`, produces `"is not any of (1, 2)"`.
    pub fn describe_opposite(&self) -> (r: String)
        ensures
            r@ == describe_opposite_spec(*self),
    {
        let mut out = String::new();
        match self {
            ConditionValue::Exact(val) => {
                out.append("is not ");
                val.append_display(&mut out);
            },
            ConditionValue::Not(val) => {
                out.append("is ");
                val.append_display(&mut out);
            },
            ConditionValue::In(values) => {
                out.append("is not any of ");
                append_tuple(&mut out, values);
            },
            ConditionValue::NotIn(values) => {
                out.append("is any of ");
                append_tuple(&mut out, values);
            },
        }
        assert(out@ =~= describe_opposite_spec(*self));
        out
    }

    /// A copy of the condition.
    pub fn duplicate(&self) -> (r: ConditionValue)
        ensures
            same_condition(*self, r),
    {
        match self {
            ConditionValue::Exact(v) => ConditionValue::Exact(v.clone()),
            ConditionValue::Not(v) => ConditionValue::Not(v.clone()),
            ConditionValue::In(values) => ConditionValue::In(copy_values(values)),
            ConditionValue::NotIn(values) => ConditionValue::NotIn(copy_values(values)),
        }
    }
}

impl Clone for ConditionValue {
    fn clone(&self) -> (r: Self)
        ensures
            same_condition(*self, r),
    {
        self.duplicate()
    }
}

impl PartialEq for ConditionValue {
    fn eq(&self, other: &ConditionValue) -> (r: bool) {
        match (self, other) {
            (ConditionValue::Exact(x), ConditionValue::Exact(y)) => *x == *y,
            (ConditionValue::Not(x), ConditionValue::Not(y)) => *x == *y,
            (ConditionValue::In(xs), ConditionValue::In(ys)) => values_equal(xs, ys),
            (ConditionValue::NotIn(xs), ConditionValue::NotIn(ys)) => values_equal(xs, ys),
            _ => false,
        }
    }
}

impl PartialEqSpecImpl for ConditionValue {
    open spec fn obeys_eq_spec() -> bool {
        true
    }

    open spec fn eq_spec(&self, other: &ConditionValue) -> bool {
        cond_eq(*self, *other)
    }
}

} // verus!
