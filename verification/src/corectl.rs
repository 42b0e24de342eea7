//! Data exchanged with the core control process (parsed nodes, parse
//! errors, url-test rows) and the client-side decisions around it: the
//! bearer token, the binary to run, and when a failed RPC warrants
//! respawning the daemon.

use vstd::prelude::*;
use crate::json;
use crate::text::{hex_encode, hex_lower};

verus! {

/// One share-link line the core could not parse.
#[derive(Clone, Debug)]
pub struct ParseError {
    pub line: i64,
    pub snippet: String,
    pub reason: String,
}

/// A parsed node: the sing-box outbound options as JSON text (persisted
/// verbatim) with its content-hash id, display remark and protocol type.
#[derive(Clone, Debug)]
pub struct NodeMeta {
    pub id: String,
    pub remark: String,
    pub node_type: String,
    pub out: String,
}

impl NodeMeta {
    /// A copy equal to `self`.
    pub fn duplicate(&self) -> (r: NodeMeta)
        ensures
            r == *self,
    {
        NodeMeta {
            id: self.id.clone(),
            remark: self.remark.clone(),
            node_type: self.node_type.clone(),
            out: self.out.clone(),
        }
    }
}

/// One url-test outcome: a delay or an error.
#[derive(Clone, Debug)]
pub struct UrlTestRow {
    pub id: String,
    pub delay_ms: Option<i64>,
    pub error: Option<String>,
}

/// Snapshot of one tracked batch probe.
#[derive(Clone, Debug, Default)]
pub struct UrlTestProgress {
    pub found: bool,
    pub done: bool,
    pub results: Vec<UrlTestRow>,
}

/// Result of parsing link/subscription text: nodes and per-line errors.
#[derive(Clone, Debug)]
pub struct ImportResult {
    pub nodes: Vec<NodeMeta>,
    pub errors: Vec<ParseError>,
}

/// The protocol type of an outbound: its `type` string, or `?`.
pub open spec fn node_type_spec(out: Seq<char>) -> Seq<char> {
    match json::json_str_field(out, "type"@) {
        Some(t) => t,
        None => "?"@,
    }
}

/// Protocol type of a parsed outbound (its `type` member, `?` when absent).
pub fn node_type_of(out: &str) -> (r: String)
    ensures
        r@ == node_type_spec(out@),
{
    match json::str_field(out, "type") {
        Some(t) => t,
        None => String::from_str("?"),
    }
}

/// Fills `buf` from the operating system's random source
/// (`getrandom::getrandom`); `false` when the source failed. Nothing is
/// claimed of the bytes.
#[verifier::external_body]
fn fill_random(buf: &mut [u8; 16]) -> (ok: bool) {
    getrandom::getrandom(buf).is_ok()
}

/// 32 lower-case hex characters: the encoding of some 16 bytes.
pub open spec fn is_hex_token(s: Seq<char>) -> bool {
    exists|b: Seq<u8>| b.len() == 16 && #[trigger] hex_lower(b) == s
}

/// Per-run bearer token: 16 random bytes, hex encoded; when the random
/// source fails, the bytes of `fallback` are used instead.
pub fn new_token(fallback: [u8; 16]) -> (s: String)
    ensures
        is_hex_token(s@),
        s@.len() == 32,
{
    let mut buf: [u8; 16] = [0u8; 16];
    let ok = fill_random(&mut buf);
    let bytes = if ok {
        buf
    } else {
        fallback
    };
    let s = hex_encode(&bytes);
    assert(hex_lower(bytes@) == s@);
    s
}

/// Random hex id for a tracked batch-probe run (random bytes, or zeros
/// when the random source fails).
pub fn run_id_hex() -> (s: String)
    ensures
        is_hex_token(s@),
        s@.len() == 32,
{
    new_token([0u8; 16])
}

/// Whether a failed RPC call should drop the endpoint, respawn the daemon
/// and retry: only for a send-level failure on the first attempt that
/// happened within five seconds (a later failure means a busy daemon).
pub open spec fn respawn_spec(err: Seq<char>, attempt: u32, elapsed_nanos: u128) -> bool {
    &&& err.len() >= "core rpc send error"@.len()
    &&& err.take("core rpc send error"@.len() as int) == "core rpc send error"@
    &&& attempt == 0
    &&& elapsed_nanos < 5_000_000_000
}

pub fn should_respawn(err: &str, attempt: u32, elapsed_nanos: u128) -> (r: bool)
    ensures
        r == respawn_spec(err@, attempt, elapsed_nanos),
{
    let e = crate::text::to_chars(err);
    let p = crate::text::to_chars("core rpc send error");
    let starts = e.len() >= p.len() && crate::text::range_eq(&e, 0, p.len(), "core rpc send error");
    proof {
        if e@.len() >= p@.len() {
            assert(e@.subrange(0, p@.len() as int) =~= e@.take(p@.len() as int));
        }
    }
    starts && attempt == 0 && elapsed_nanos < 5_000_000_000
}

/// The core binary to run: `$NEKOS_CORE` when set and non-empty, else the
/// development build when it exists, else `nekos-core` from `PATH`.
pub fn choose_binary(env: Option<&str>, dev_path: &str, dev_exists: bool) -> (r: String)
    ensures
        match env {
            Some(e) if e@.len() > 0 => r@ == e@,
            _ => if dev_exists {
                r@ == dev_path@
            } else {
                r@ == "nekos-core"@
            },
        },
{
    if let Some(e) = env {
        if crate::text::to_chars(e).len() > 0 {
            return String::from_str(e);
        }
    }
    if dev_exists {
        String::from_str(dev_path)
    } else {
        String::from_str("nekos-core")
    }
}

/// Error of a JSON-RPC request that could not be sent.
pub open spec fn send_error_spec(method: Seq<char>, err: Seq<char>) -> Seq<char> {
    "core rpc send error for "@ + method + ": "@ + err
}

pub fn rpc_send_error(method: &str, err: &str) -> (r: String)
    ensures
        r@ == send_error_spec(method@, err@),
{
    let r = crate::text::concat(String::from_str("core rpc send error for "), method);
    let r = crate::text::concat(r, ": ");
    crate::text::concat(r, err)
}

/// Error of a JSON-RPC response whose body could not be read.
pub fn rpc_read_error(method: &str, err: &str) -> (r: String)
    ensures
        r@ == "core rpc "@ + method@ + ": read response: "@ + err@,
{
    let r = crate::text::concat(String::from_str("core rpc "), method);
    let r = crate::text::concat(r, ": read response: ");
    crate::text::concat(r, err)
}

/// What a JSON-RPC reply means: a non-2xx status fails with its status
/// text and trimmed body; a body that is not JSON fails as malformed; an
/// `error` member fails with its message; otherwise the `result` member is
/// the answer (its JSON text), and a reply without one fails.
pub open spec fn rpc_reply_spec(method: Seq<char>, success: bool, status: Seq<char>, text: Seq<char>) -> Result<
    Seq<char>,
    Seq<char>,
> {
    let pre = "core rpc "@ + method;
    if !success {
        Err(pre + " failed: HTTP "@ + status + " "@ + crate::text::trim(text))
    } else if json::json_error(text) is Some {
        Err(pre + ": malformed response "@ + crate::subscribe::debug_str(text) + ": "@ + json::json_error(
            text,
        ).unwrap())
    } else if json::json_member(text, "error"@) is Some {
        Err(pre + ": "@ + match json::json_str_field(json::json_member(text, "error"@).unwrap(), "message"@) {
            Some(m) => m,
            None => "unknown error"@,
        })
    } else if json::json_member(text, "result"@) is Some {
        Ok(json::json_member(text, "result"@).unwrap())
    } else {
        Err(pre + ": response without result: "@ + crate::subscribe::debug_str(text))
    }
}

pub fn rpc_reply(method: &str, success: bool, status: &str, text: &str) -> (r: Result<String, String>)
    ensures
        match r {
            Ok(v) => rpc_reply_spec(method@, success, status@, text@) == Ok::<Seq<char>, Seq<char>>(v@),
            Err(e) => rpc_reply_spec(method@, success, status@, text@) == Err::<Seq<char>, Seq<char>>(e@),
        },
{
    let pre = crate::text::concat(String::from_str("core rpc "), method);
    if !success {
        let r = crate::text::concat(pre, " failed: HTTP ");
        let r = crate::text::concat(r, status);
        let r = crate::text::concat(r, " ");
        return Err(crate::text::concat(r, crate::commands::trimmed(text).as_str()));
    }
    if let Some(e) = json::parse_error(text) {
        let r = crate::text::concat(pre, ": malformed response ");
        let r = crate::text::concat(r, crate::subscribe::debug_quoted(text).as_str());
        let r = crate::text::concat(r, ": ");
        return Err(crate::text::concat(r, e.as_str()));
    }
    if let Some(err) = json::member(text, "error") {
        let msg = match json::str_field(err.as_str(), "message") {
            Some(m) => m,
            None => String::from_str("unknown error"),
        };
        let r = crate::text::concat(pre, ": ");
        return Err(crate::text::concat(r, msg.as_str()));
    }
    match json::member(text, "result") {
        Some(v) => Ok(v),
        None => {
            let r = crate::text::concat(pre, ": response without result: ");
            Err(crate::text::concat(r, crate::subscribe::debug_quoted(text).as_str()))
        },
    }
}

} // verus!
