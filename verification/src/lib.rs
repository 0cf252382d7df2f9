pub mod b64;
pub mod codec;
pub mod envelope;
pub mod data;
pub mod crypto;
pub mod error;
pub mod vault;

use vstd::prelude::*;

verus! {

/// Relying-party identifier used in every authenticator ceremony.
pub fn rp_id() -> (r: &'static str)
    ensures
        r@ == "localhost"@,
{
    "localhost"
}

/// Human-readable relying-party name shown by the authenticator.
pub fn rp_name() -> (r: &'static str)
    ensures
        r@ == "authvault"@,
{
    "authvault"
}

} // verus!
