//! Platforms without a system-proxy integration.

use vstd::prelude::*;
use crate::text::owned;

verus! {

pub fn enable(port: u16) -> (r: Result<(), String>)
    ensures
        r is Err && r->Err_0@ == "system proxy: not implemented on this platform yet"@,
{
    Err(owned("system proxy: not implemented on this platform yet"))
}

pub fn disable() -> (r: Result<(), String>)
    ensures
        r is Ok,
{
    Ok(())
}

pub fn leftover_at(port: u16) -> (r: bool)
    ensures
        !r,
{
    false
}

} // verus!
