//! The defaults of the service's configuration.

use vstd::prelude::*;
use vstd::string::*;

verus! {

/// The address the service listens on unless told otherwise.
pub fn default_addr() -> (r: String)
    ensures
        r@ == "0.0.0.0:5000"@,
{
    String::from_str("0.0.0.0:5000")
}

/// The address the metrics endpoint listens on unless told otherwise.
pub fn default_metrics_addr() -> (r: String)
    ensures
        r@ == "127.0.0.1:5001"@,
{
    String::from_str("127.0.0.1:5001")
}

} // verus!
