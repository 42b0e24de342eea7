//! Subscription fetching decisions: the `subscription-userinfo` header
//! parser, validation of user-supplied request headers, and the response
//! checks (HTTP status, declared and actual body size). The HTTP exchange
//! itself happens in the shell.

use vstd::prelude::*;
use crate::corectl::ImportResult;
use crate::text::{concat, find_char, first_idx, parse_u64_range, parse_u64_spec, to_chars, trim, trim_bounds, u64_to_string, decimal_digits};

verus! {

/// Largest subscription body accepted, in bytes.
pub const MAX_BODY_BYTES: u64 = 16 * 1024 * 1024;

/// Traffic quota / expiry announced by a subscription server.
#[derive(Clone, Copy, Debug, PartialEq, Eq)]
pub struct SubUserInfo {
    pub upload: u64,
    pub download: u64,
    pub total: u64,
    /// unix seconds
    pub expire: Option<u64>,
}

/// Result of a subscription fetch + parse. When the caller asked to save
/// it, `group_id` references the new persisted group.
#[derive(Clone, Debug)]
pub struct SubscribeOutcome {
    pub url: String,
    pub content_type: Option<String>,
    pub userinfo: Option<SubUserInfo>,
    pub group_id: Option<i64>,
    pub parsed: ImportResult,
}

pub open spec fn zero_info() -> SubUserInfo {
    SubUserInfo { upload: 0, download: 0, total: 0, expire: None }
}

/// `info` with the field named `key` set to `n` (unknown keys are ignored).
pub open spec fn assign_info(info: SubUserInfo, key: Seq<char>, n: u64) -> SubUserInfo {
    if key == "upload"@ {
        SubUserInfo { upload: n, ..info }
    } else if key == "download"@ {
        SubUserInfo { download: n, ..info }
    } else if key == "total"@ {
        SubUserInfo { total: n, ..info }
    } else if key == "expire"@ {
        SubUserInfo { expire: Some(n), ..info }
    } else {
        info
    }
}

/// One `key=value` pair: pairs without `=` are skipped, a value that is not
/// a `u64` rejects the whole header.
pub open spec fn userinfo_step(piece: Seq<char>, info: SubUserInfo) -> Option<SubUserInfo> {
    let p = trim(piece);
    let e = first_idx(p, '=');
    if e >= p.len() {
        Some(info)
    } else {
        let key = trim(p.take(e as int));
        let val = trim(p.skip(e + 1int));
        match parse_u64_spec(val) {
            None => None,
            Some(n) => Some(assign_info(info, key, n)),
        }
    }
}

/// The `;`-separated pairs of `s`, applied left to right to `info`.
pub open spec fn userinfo_fold(s: Seq<char>, info: SubUserInfo) -> Option<SubUserInfo>
    decreases s.len(),
{
    let j = first_idx(s, ';');
    match userinfo_step(s.take(j as int), info) {
        None => None,
        Some(next) => if j >= s.len() {
            Some(next)
        } else {
            userinfo_fold(s.skip(j + 1int), next)
        },
    }
}

/// Parsed `subscription-userinfo` header
/// ("upload=0; download=123; total=1024; expire=1700000000").
pub open spec fn userinfo_spec(value: Seq<char>) -> Option<SubUserInfo> {
    userinfo_fold(value, zero_info())
}

/// Applies the pair `s[from..to]` to `info`.
fn userinfo_step_range(s: &[char], from: usize, to: usize, info: SubUserInfo) -> (r: Option<
    SubUserInfo,
>)
    requires
        from <= to <= s@.len(),
    ensures
        r == userinfo_step(s@.subrange(from as int, to as int), info),
{
    let ghost piece = s@.subrange(from as int, to as int);
    let (a, b) = trim_bounds(s, from, to);
    let e = find_char(s, a, b, '=');
    let ghost p = s@.subrange(a as int, b as int);
    if e >= b {
        return Some(info);
    }
    let (ka, kb) = trim_bounds(s, a, e);
    let (va, vb) = trim_bounds(s, e + 1, b);
    proof {
        assert(p.take((e - a) as int) =~= s@.subrange(a as int, e as int));
        assert(p.skip((e - a) + 1) =~= s@.subrange(e + 1, b as int));
    }
    let n = match parse_u64_range(s, va, vb) {
        None => {
            return None;
        },
        Some(n) => n,
    };
    let mut out = info;
    if crate::text::range_eq(s, ka, kb, "upload") {
        out.upload = n;
    } else if crate::text::range_eq(s, ka, kb, "download") {
        out.download = n;
    } else if crate::text::range_eq(s, ka, kb, "total") {
        out.total = n;
    } else if crate::text::range_eq(s, ka, kb, "expire") {
        out.expire = Some(n);
    }
    Some(out)
}

/// Parses a `subscription-userinfo` header value. Pairs without `=` are
/// skipped (so any text without pairs yields an all-zero row); a value that
/// is not a `u64` rejects the header.
pub fn parse_userinfo(value: &str) -> (r: Option<SubUserInfo>)
    ensures
        r == userinfo_spec(value@),
{
    let s = to_chars(value);
    let n = s.len();
    let mut pos: usize = 0;
    let mut info = SubUserInfo { upload: 0, download: 0, total: 0, expire: None };
    assert(s@.subrange(0, n as int) =~= s@);
    loop
        invariant
            n == s@.len(),
            s@ == value@,
            pos <= n,
            userinfo_spec(value@) == userinfo_fold(s@.subrange(pos as int, n as int), info),
        decreases n - pos,
    {
        let j = find_char(&s, pos, n, ';');
        let ghost rest = s@.subrange(pos as int, n as int);
        assert(rest.take((j - pos) as int) =~= s@.subrange(pos as int, j as int));
        let next = userinfo_step_range(&s, pos, j, info);
        match next {
            None => {
                return None;
            },
            Some(i2) => {
                if j >= n {
                    return Some(i2);
                }
                assert(rest.skip((j - pos) + 1) =~= s@.subrange(j + 1, n as int));
                info = i2;
                pos = j + 1;
            },
        }
    }
}

/// An HTTP token character (`tchar`, RFC 9110).
pub open spec fn is_tchar(c: char) -> bool {
    ||| ('a' <= c && c <= 'z')
    ||| ('A' <= c && c <= 'Z')
    ||| ('0' <= c && c <= '9')
    ||| c == '!' || c == '#' || c == '$' || c == '%' || c == '&' || c == '\''
    ||| c == '*' || c == '+' || c == '-' || c == '.' || c == '^' || c == '_'
    ||| c == '`' || c == '|' || c == '~'
}

/// A name that `HeaderName::from_bytes` accepts.
pub open spec fn header_name_valid(name: Seq<char>) -> bool {
    1 <= name.len() <= 65535 && forall|i: int| 0 <= i < name.len() ==> is_tchar(#[trigger] name[i])
}

/// A value that `HeaderValue::from_str` accepts: no control characters
/// other than horizontal tab.
pub open spec fn header_value_valid(value: Seq<char>) -> bool {
    forall|i: int|
        0 <= i < value.len() ==> #[trigger] value[i] == '\t' || (' ' <= value[i] && value[i]
            != '\u{7f}')
}

/// `reqwest::header::HeaderName::from_bytes(name.as_bytes()).is_ok()`. The
/// source accepts 1 to 65535 bytes, each of which its `HEADER_CHARS` table
/// maps to a non-zero byte: exactly the ASCII token characters; any
/// non-ASCII character has UTF-8 bytes of 0x80 or more, which the table
/// rejects.
#[verifier::external_body]
fn header_name_ok(name: &str) -> (r: bool)
    ensures
        r == header_name_valid(name@),
{
    reqwest::header::HeaderName::from_bytes(name.as_bytes()).is_ok()
}

/// `reqwest::header::HeaderValue::from_str(value).is_ok()`. The source
/// accepts exactly the byte strings whose bytes are tab or in 32..=255
/// except 127; bytes of non-ASCII characters are all 0x80 or more.
#[verifier::external_body]
fn header_value_ok(value: &str) -> (r: bool)
    ensures
        r == header_value_valid(value@),
{
    reqwest::header::HeaderValue::from_str(value).is_ok()
}

/// `format!("{s:?}")`: the Debug rendering of a string.
pub uninterp spec fn debug_str(s: Seq<char>) -> Seq<char>;

/// Renders `s` with `<str as Debug>::fmt` (quoted and escaped).
#[verifier::external_body]
pub(crate) fn debug_quoted(s: &str) -> (r: String)
    ensures
        r@ == debug_str(s@),
{
    format!("{s:?}")
}

/// Index of the first header pair that is not valid, or `hs.len()`.
pub open spec fn first_bad_header(hs: Seq<(Seq<char>, Seq<char>)>) -> int
    decreases hs.len(),
{
    if hs.len() == 0 {
        0
    } else if !header_name_valid(hs[0].0) || !header_value_valid(hs[0].1) {
        0
    } else {
        1 + first_bad_header(hs.drop_first())
    }
}

pub open spec fn header_views(hs: Seq<(String, String)>) -> Seq<(Seq<char>, Seq<char>)> {
    hs.map_values(|p: (String, String)| (p.0@, p.1@))
}

proof fn lemma_first_bad(hs: Seq<(Seq<char>, Seq<char>)>, k: int)
    requires
        0 <= k <= hs.len(),
        forall|i: int|
            0 <= i < k ==> header_name_valid(#[trigger] hs[i].0) && header_value_valid(hs[i].1),
        k < hs.len() ==> !header_name_valid(hs[k].0) || !header_value_valid(hs[k].1),
    ensures
        first_bad_header(hs) == k,
    decreases hs.len(),
{
    if k > 0 {
        let t = hs.drop_first();
        assert(header_name_valid(hs[0].0) && header_value_valid(hs[0].1));
        assert forall|i: int| 0 <= i < k - 1 implies header_name_valid(#[trigger] t[i].0)
            && header_value_valid(t[i].1) by {
            assert(t[i] == hs[i + 1]);
            assert(header_name_valid(hs[i + 1].0) && header_value_valid(hs[i + 1].1));
        }
        if k - 1 < t.len() {
            assert(t[k - 1] == hs[k]);
        }
        lemma_first_bad(t, k - 1);
    }
}

/// Validates user-supplied request headers in order. The first pair whose
/// name or value is not a valid HTTP header aborts with a message naming
/// its key; otherwise the pairs are returned unchanged.
pub fn build_headers(headers: &[(String, String)]) -> (r: Result<Vec<(String, String)>, String>)
    ensures
        ({
            let hs = header_views(headers@);
            let k = first_bad_header(hs);
            match r {
                Ok(v) => k == hs.len() && v@ == headers@,
                Err(msg) => k < hs.len() && (if !header_name_valid(hs[k].0) {
                    msg@ == "invalid header name "@ + debug_str(hs[k].0)
                } else {
                    msg@ == "invalid header value for "@ + debug_str(hs[k].0)
                }),
            }
        }),
{
    let ghost hs = header_views(headers@);
    let n = headers.len();
    let mut out: Vec<(String, String)> = Vec::new();
    let mut i: usize = 0;
    while i < n
        invariant
            n == headers@.len(),
            hs == header_views(headers@),
            hs.len() == n,
            i <= n,
            out@ == headers@.take(i as int),
            forall|q: int|
                0 <= q < i ==> header_name_valid(#[trigger] hs[q].0) && header_value_valid(hs[q].1),
        decreases n - i,
    {
        let (k, v) = &headers[i];
        assert(hs[i as int] == (k@, v@));
        if !header_name_ok(k.as_str()) {
            proof {
                lemma_first_bad(hs, i as int);
            }
            return Err(concat(String::from_str("invalid header name "), debug_quoted(k.as_str()).as_str()));
        }
        if !header_value_ok(v.as_str()) {
            proof {
                lemma_first_bad(hs, i as int);
            }
            return Err(
                concat(String::from_str("invalid header value for "), debug_quoted(k.as_str()).as_str()),
            );
        }
        out.push((k.clone(), v.clone()));
        i = i + 1;
        assert(out@ =~= headers@.take(i as int));
    }
    proof {
        lemma_first_bad(hs, n as int);
    }
    assert(out@ =~= headers@);
    Ok(out)
}

/// Decimal text of `n` (spec view of `u64::to_string`).
pub open spec fn dec(n: u64) -> Seq<char> {
    decimal_digits(n as nat)
}

/// The checks made on the response head before the body is read: a
/// non-2xx status fails with its display text, and a declared
/// `Content-Length` above `MAX_BODY_BYTES` fails (a header that is not a
/// `u64` is ignored).
pub fn check_response_head(status: u16, status_display: &str, content_length: Option<&str>) -> (r:
    Result<(), String>)
    ensures
        !(200 <= status <= 299) ==> r is Err && r->Err_0@ == "subscription server returned HTTP "@
            + status_display@,
        (200 <= status <= 299) ==> match content_length {
            Some(cl) => match parse_u64_spec(cl@) {
                Some(len) => if len > MAX_BODY_BYTES {
                    r is Err && r->Err_0@ == "subscription body too large ("@ + dec(len)
                        + " bytes)"@
                } else {
                    r is Ok
                },
                None => r is Ok,
            },
            None => r is Ok,
        },
{
    if !(200 <= status && status <= 299) {
        return Err(concat(String::from_str("subscription server returned HTTP "), status_display));
    }
    if let Some(cl) = content_length {
        let cs = to_chars(cl);
        assert(cs@.subrange(0, cs@.len() as int) =~= cs@);
        if let Some(len) = parse_u64_range(&cs, 0, cs.len()) {
            if len > MAX_BODY_BYTES {
                let msg = concat(String::from_str("subscription body too large ("), u64_to_string(len).as_str());
                return Err(concat(msg, " bytes)"));
            }
        }
    }
    Ok(())
}

/// The check made on the body once read.
pub fn check_body_len(len: u64) -> (r: Result<(), String>)
    ensures
        len <= MAX_BODY_BYTES ==> r is Ok,
        len > MAX_BODY_BYTES ==> r is Err && r->Err_0@ == "subscription body too large ("@ + dec(len)
            + " bytes)"@,
{
    if len > MAX_BODY_BYTES {
        let msg = concat(String::from_str("subscription body too large ("), u64_to_string(len).as_str());
        return Err(concat(msg, " bytes)"));
    }
    Ok(())
}

} // verus!
