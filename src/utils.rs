//! The package's name and version.
use vstd::prelude::*;

verus! {

/// The name of the package.
pub fn get_name() -> (r: &'static str)
    ensures
        r@ == "envvar"@,
{
    "envvar"
}

/// The version of the package.
pub fn get_version() -> (r: &'static str)
    ensures
        r@ == "0.1.0"@,
{
    "0.1.0"
}

} // verus!
