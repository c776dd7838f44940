//! Names of derived products.
use vstd::prelude::*;
use vstd::string::StringExecFns;

verus! {

/// The name of a product derived from the file stem `stem`: `<stem>_<postfix>`.
pub fn stem_builder(stem: &str, postfix: &str) -> (r: String)
    ensures
        r@ == stem@ + "_"@ + postfix@,
{
    let mut r = String::from_str(stem);
    r.append("_");
    r.append(postfix);
    r
}

} // verus!
