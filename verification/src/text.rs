use vstd::prelude::*;
use vstd::string::StringSliceAdditionalSpecFns;

verus! {

/// The longer of two string slices, measured in bytes; ties go to the second.
pub fn longest<'a>(x: &'a str, y: &'a str) -> (r: &'a str)
    ensures
        r@ == if x.spec_bytes().len() > y.spec_bytes().len() {
            x@
        } else {
            y@
        },
        r.spec_bytes() == if x.spec_bytes().len() > y.spec_bytes().len() {
            x.spec_bytes()
        } else {
            y.spec_bytes()
        },
{
    if x.as_bytes().len() > y.as_bytes().len() {
        x
    } else {
        y
    }
}

} // verus!
