//! Windows: WinINET proxy values under the current user's Internet
//! Settings key; the shell writes them and broadcasts the change.

use vstd::prelude::*;
use crate::subscribe::dec;
use crate::text::{concat, owned, u64_to_string};

verus! {

/// Key holding the WinINET settings of the current user.
pub fn internet_settings_key() -> (r: String)
    ensures
        r@ == "Software\\Microsoft\\Windows\\CurrentVersion\\Internet Settings"@,
{
    owned("Software\\Microsoft\\Windows\\CurrentVersion\\Internet Settings")
}

/// A registry value to write.
#[derive(Clone, Debug, PartialEq, Eq)]
pub enum RegValue {
    Dword(u32),
    Sz(String),
}

/// One write under the Internet Settings key.
#[derive(Clone, Debug, PartialEq, Eq)]
pub struct RegWrite {
    pub name: String,
    pub value: RegValue,
}

pub open spec fn is_dword(w: RegWrite, name: Seq<char>, v: u32) -> bool {
    w.name@ == name && w.value == RegValue::Dword(v)
}

pub open spec fn is_sz(w: RegWrite, name: Seq<char>, v: Seq<char>) -> bool {
    w.name@ == name && (w.value matches RegValue::Sz(s) && s@ == v)
}

/// The writes that route WinINET traffic through 127.0.0.1:`port`, in
/// order; the first failing write aborts the rest.
pub fn enable(port: u16) -> (plan: Vec<RegWrite>)
    ensures
        plan@.len() == 3,
        is_dword(plan@[0], "ProxyEnable"@, 1),
        is_sz(plan@[1], "ProxyServer"@, "127.0.0.1:"@ + dec(port as u64)),
        is_sz(plan@[2], "ProxyOverride"@, "localhost;127.0.0.1;<local>"@),
{
    let server = concat(owned("127.0.0.1:"), u64_to_string(port as u64).as_str());
    let mut plan: Vec<RegWrite> = Vec::new();
    plan.push(RegWrite { name: owned("ProxyEnable"), value: RegValue::Dword(1) });
    plan.push(RegWrite { name: owned("ProxyServer"), value: RegValue::Sz(server) });
    plan.push(
        RegWrite {
            name: owned("ProxyOverride"),
            value: RegValue::Sz(owned("localhost;127.0.0.1;<local>")),
        },
    );
    plan
}

/// The write that turns the WinINET proxy off.
pub fn disable() -> (plan: Vec<RegWrite>)
    ensures
        plan@.len() == 1,
        is_dword(plan@[0], "ProxyEnable"@, 0),
{
    let mut plan: Vec<RegWrite> = Vec::new();
    plan.push(RegWrite { name: owned("ProxyEnable"), value: RegValue::Dword(0) });
    plan
}

/// Error reported when writing value `name` failed with `err`.
pub fn write_error(name: &str, err: &str) -> (r: String)
    ensures
        r@ == "写入 "@ + name@ + ": "@ + err@,
{
    concat(concat(concat(owned("写入 "), name), ": "), err)
}

} // verus!
