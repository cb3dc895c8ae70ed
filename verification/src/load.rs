use vstd::prelude::*;

use crate::error::ValidationError;
use crate::check::result_view;
use crate::schema::{apply_spec, schema_gives, schema_outcome, Schema};
use crate::value::Value;

verus! {

/// The context that names the file being loaded.
pub open spec fn file_ctx(display: Seq<char>) -> Seq<char> {
    "File "@ + display
}

fn file_context(display: &str) -> (r: String)
    ensures
        r@ == file_ctx(display@),
{
    let mut c = String::new();
    c.append("File ");
    c.append(display);
    c
}

/// The error for a path that is not a file.
pub fn not_a_file_error(display: &str) -> (r: ValidationError)
    ensures
        r@ == seq![display@ + " is not a file"@],
{
    let mut m = String::new();
    m.append(display);
    m.append(" is not a file");
    ValidationError::leaf(m)
}

/// The result of loading a file once its contents were read and parsed:
/// `parsed` holds the data, or the message of the read or parse error.
/// The data is validated against the schema and its defaults applied; every
/// error gets the file's name as outermost context.
pub fn finish_load(display: &str, parsed: Result<Value, String>, schema: &Schema) -> (r: Result<
    Value,
    ValidationError,
>)
    ensures
        match parsed {
            Err(msg) => r matches Err(e) && e@ == seq![file_ctx(display@), msg@],
            Ok(data) => match schema_outcome(*schema, data@) {
                Some(Ok(())) => r matches Ok(v) && v@ == apply_spec(*schema, data@),
                Some(Err(t)) => r matches Err(e) && e@ == seq![file_ctx(display@)] + t,
                None => (r matches Ok(v) ==> v@ == apply_spec(*schema, data@)) && (r matches Err(e)
                    ==> e@.len() >= 1 && e@[0] == file_ctx(display@)),
            },
        },
        parsed matches Ok(data) ==> exists|x: Result<(), Seq<Seq<char>>>|
            #[trigger] schema_gives(*schema, data@, x) && match x {
                Ok(()) => r matches Ok(v) && v@ == apply_spec(*schema, data@),
                Err(t) => r matches Err(e) && e@ == seq![file_ctx(display@)] + t,
            },
{
    match parsed {
        Err(msg) => {
            let e = ValidationError::leaf(msg).wrap(file_context(display));
            assert(e@ =~= seq![file_ctx(display@), msg@]);
            Err(e)
        },
        Ok(data) => {
            let c = schema.check(&data);
            proof {
                assert(schema_gives(*schema, data@, result_view(c)));
            }
            match c {
                Ok(()) => Ok(schema.apply_defaults(&data)),
                Err(e) => Err(e.wrap(file_context(display))),
            }
        },
    }
}

} // verus!
