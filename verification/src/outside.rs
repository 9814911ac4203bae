//! The JSON values of `serde_json`, as the library's signatures name them
//! when it reads a compiled script.

use vstd::prelude::*;

verus! {

#[verifier::external_type_specification]
#[verifier::external_body]
pub struct ExJsonValue(serde_json::Value);

} // verus!
