//! Assembly of the compute shader program from its parts.
use vstd::prelude::*;
use vstd::string::*;

verus! {

/// Join the five shader sources in dependency order, with a blank line
/// between each two: field arithmetic, Jacobian curve operations, lookup
/// tables with base-point multiplication, SHA-256, RIPEMD-160.
pub fn get_combined_source(
    field: &str,
    curve_jacobian: &str,
    tables: &str,
    sha256: &str,
    ripemd160: &str,
) -> (r: String)
    ensures
        r@ == field@ + "\n\n"@ + curve_jacobian@ + "\n\n"@ + tables@ + "\n\n"@ + sha256@ + "\n\n"@
            + ripemd160@,
{
    let sep = "\n\n";
    let r = String::from_str(field).concat(sep).concat(curve_jacobian).concat(sep).concat(
        tables,
    ).concat(sep).concat(sha256).concat(sep).concat(ripemd160);
    r
}

} // verus!
