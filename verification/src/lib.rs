//! Validate configuration and produce human readable error messages.

use vstd::prelude::*;

mod check;
mod condition;
mod convert;
mod equivalence;
mod error;
pub mod laws;
mod load;
mod schema;
mod text;
mod value;

pub use check::{regex_verdict, CheckFn, CustomCheckFn, ValueType};
pub use condition::ConditionValue;
pub use convert::{IntoText, IntoValue};
pub use error::{validate_context, ValidationError};
pub use load::{finish_load, not_a_file_error};
pub use schema::{Schema, Validator, WarnCallback};
pub use value::{SpecValue, Value, ValueMap};

verus! {

/// Validate a value against a schema.
///
/// Returns `Ok(())` on success, or a `ValidationError` on failure.
pub fn validate(value: &Value, schema: &Schema) -> (r: Result<(), ValidationError>)
    ensures
        check::meets(schema::schema_outcome(*schema, value@), r),
        schema::schema_gives(*schema, value@, check::result_view(r)),
{
    schema.check(value)
}

/// Apply defaults to a value according to a schema.
///
/// Returns a new value with all missing optional fields set to their defaults.
pub fn apply_defaults(value: &Value, schema: &Schema) -> (r: Value)
    ensures
        r@ == schema::apply_spec(*schema, value@),
{
    schema.apply_defaults(value)
}

/// Remove defaults from a value according to a schema.
///
/// Returns a new value with all optional fields that equal their defaults removed.
pub fn remove_defaults(value: &Value, schema: &Schema) -> (r: Value)
    ensures
        r@ == schema::remove_spec(*schema, value@),
{
    schema.remove_defaults(value)
}

} // verus!
