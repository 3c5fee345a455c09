//! Case conversion of text.
use vstd::prelude::*;
use vstd::string::*;
use crate::requests::{StringRequest, StringResponse};

verus! {

/// The text in lower case.
pub uninterp spec fn lower_of(s: Seq<char>) -> Seq<char>;

/// The text in upper case.
pub uninterp spec fn upper_of(s: Seq<char>) -> Seq<char>;

/// Relies on `str::to_lowercase`: the result depends on the characters alone.
#[verifier::external_body]
pub(crate) fn lowercase(s: &str) -> (r: String)
    ensures
        r@ == lower_of(s@),
{
    s.to_lowercase()
}

/// Relies on `str::to_uppercase`: the result depends on the characters alone.
#[verifier::external_body]
pub(crate) fn uppercase(s: &str) -> (r: String)
    ensures
        r@ == upper_of(s@),
{
    s.to_uppercase()
}

/// Converts a string to the case that the request names, `uppercase` or
/// `lowercase`; `None` for any other name.
pub fn convert_string(req: &StringRequest) -> (r: Option<StringResponse>)
    ensures
        req.conversion_type@ == "uppercase"@ ==> r is Some && r->Some_0.output_string@ == upper_of(
            req.input_string@,
        ),
        req.conversion_type@ == "lowercase"@ ==> r is Some && r->Some_0.output_string@ == lower_of(
            req.input_string@,
        ),
        req.conversion_type@ != "uppercase"@ && req.conversion_type@ != "lowercase"@ ==> r is None,
{
    proof {
        reveal_strlit("uppercase");
        reveal_strlit("lowercase");
        assert("lowercase"@[0] != "uppercase"@[0]);
    }
    if req.conversion_type == String::from_str("uppercase") {
        Some(StringResponse { output_string: uppercase(req.input_string.as_str()) })
    } else if req.conversion_type == String::from_str("lowercase") {
        Some(StringResponse { output_string: lowercase(req.input_string.as_str()) })
    } else {
        None
    }
}

} // verus!
