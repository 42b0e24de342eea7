//! The CN rule sets that rule mode needs: which files, where they are
//! mirrored, when a cached copy or a download is usable, and the errors a
//! failed download reports. The shell fetches and writes the files.

use vstd::prelude::*;
use crate::text::{concat, views};

verus! {

/// Smallest size of a usable rule-set file: anything at or under it is an
/// error page or a truncated download.
pub const MIN_ASSET_BYTES: u64 = 1000;

/// The rule sets, in the order the session lists them: local file name and
/// path under the mirrors' `geo/` tree.
pub fn asset_files() -> (r: Vec<(String, String)>)
    ensures
        r@.len() == 2,
        r@[0].0@ == "cn-ip.srs"@ && r@[0].1@ == "geoip/cn.srs"@,
        r@[1].0@ == "cn-site.srs"@ && r@[1].1@ == "geosite/cn.srs"@,
{
    let mut v: Vec<(String, String)> = Vec::new();
    v.push((String::from_str("cn-ip.srs"), String::from_str("geoip/cn.srs")));
    v.push((String::from_str("cn-site.srs"), String::from_str("geosite/cn.srs")));
    v
}

/// Whether a cached rule-set file can be used as it is: a regular file
/// whose size (when it could be read) exceeds `MIN_ASSET_BYTES`.
pub fn asset_cached(is_file: bool, len: Option<u64>) -> (r: bool)
    ensures
        r == (is_file && len is Some && len->Some_0 > MIN_ASSET_BYTES),
{
    is_file && match len {
        Some(n) => n > MIN_ASSET_BYTES,
        None => false,
    }
}

/// Download URLs of a rule set, tried in order.
pub fn asset_mirrors(rel: &str) -> (r: Vec<String>)
    ensures
        views(r@) == seq![
            "https://raw.githubusercontent.com/MetaCubeX/meta-rules-dat/sing/geo/"@ + rel@,
            "https://cdn.jsdelivr.net/gh/MetaCubeX/meta-rules-dat@sing/geo/"@ + rel@,
        ],
{
    let mut v: Vec<String> = Vec::new();
    v.push(concat(String::from_str("https://raw.githubusercontent.com/MetaCubeX/meta-rules-dat/sing/geo/"), rel));
    v.push(concat(String::from_str("https://cdn.jsdelivr.net/gh/MetaCubeX/meta-rules-dat@sing/geo/"), rel));
    assert(views(v@) =~= seq![
        "https://raw.githubusercontent.com/MetaCubeX/meta-rules-dat/sing/geo/"@ + rel@,
        "https://cdn.jsdelivr.net/gh/MetaCubeX/meta-rules-dat@sing/geo/"@ + rel@,
    ]);
    v
}

/// What one mirror answered.
pub enum MirrorReply {
    /// The request failed (its error text).
    Unreachable(String),
    /// A non-2xx status (its display text).
    Refused(String),
    /// A 2xx status whose body could not be read (the error text).
    Unreadable(String),
    /// A 2xx status with a body of this many bytes.
    Body(usize),
}

/// Whether a mirror's reply is saved (`Ok`), or the error it leaves as the
/// last one.
pub fn mirror_result(url: &str, reply: &MirrorReply) -> (r: Result<(), String>)
    ensures
        match reply {
            MirrorReply::Body(n) => if n > MIN_ASSET_BYTES {
                r is Ok
            } else {
                r is Err && r->Err_0@ == url@ + ": body too small"@
            },
            MirrorReply::Refused(st) => r is Err && r->Err_0@ == url@ + ": HTTP "@ + st@,
            MirrorReply::Unreachable(e) => r is Err && r->Err_0@ == url@ + ": "@ + e@,
            MirrorReply::Unreadable(e) => r is Err && r->Err_0@ == url@ + ": "@ + e@,
        },
{
    match reply {
        MirrorReply::Body(n) => {
            if (*n as u64) > MIN_ASSET_BYTES {
                Ok(())
            } else {
                Err(concat(String::from_str(url), ": body too small"))
            }
        },
        MirrorReply::Refused(st) => {
            let r = concat(String::from_str(url), ": HTTP ");
            Err(concat(r, st.as_str()))
        },
        MirrorReply::Unreachable(e) => {
            let r = concat(String::from_str(url), ": ");
            Err(concat(r, e.as_str()))
        },
        MirrorReply::Unreadable(e) => {
            let r = concat(String::from_str(url), ": ");
            Err(concat(r, e.as_str()))
        },
    }
}

/// The last error before any mirror was tried.
pub fn no_mirror() -> (r: String)
    ensures
        r@ == "no mirror reachable"@,
{
    String::from_str("no mirror reachable")
}

/// Error when no mirror delivered rule set `name`.
pub fn asset_failure(name: &str, last_err: &str) -> (r: String)
    ensures
        r@ == "下载规则集 "@ + name@ + " 失败: "@ + last_err@ + "（启用「规则」模式需要网络）"@,
{
    let r = concat(String::from_str("下载规则集 "), name);
    let r = concat(r, " 失败: ");
    let r = concat(r, last_err);
    concat(r, "（启用「规则」模式需要网络）")
}

/// The error a mirror's reply leaves, `None` when the reply is saved.
pub open spec fn mirror_error(url: Seq<char>, reply: MirrorReply) -> Option<Seq<char>> {
    match reply {
        MirrorReply::Body(n) => if n > MIN_ASSET_BYTES {
            None
        } else {
            Some(url + ": body too small"@)
        },
        MirrorReply::Refused(st) => Some(url + ": HTTP "@ + st@),
        MirrorReply::Unreachable(e) => Some(url + ": "@ + e@),
        MirrorReply::Unreadable(e) => Some(url + ": "@ + e@),
    }
}

/// Over the replies of the mirrors tried, in order: the index of the first
/// saved one, else the last error ("no mirror reachable" when none was
/// tried).
pub open spec fn mirrors_spec(urls: Seq<Seq<char>>, replies: Seq<MirrorReply>) -> Result<nat, Seq<char>>
    decreases replies.len(),
{
    if replies.len() == 0 || urls.len() == 0 {
        Err("no mirror reachable"@)
    } else {
        match mirrors_spec(urls.drop_last(), replies.drop_last()) {
            Ok(i) => Ok(i),
            Err(_) => match mirror_error(urls.last(), replies.last()) {
                None => Ok((replies.len() - 1) as nat),
                Some(e) => Err(e),
            },
        }
    }
}

/// The outcome of downloading rule set `name` from the mirrors tried, in
/// order, given each one's reply: the index of the reply to save, or the
/// download error built from the last mirror error.
pub fn asset_outcome(name: &str, urls: &[String], replies: &[MirrorReply]) -> (r: Result<usize, String>)
    requires
        urls@.len() == replies@.len(),
    ensures
        match mirrors_spec(views(urls@), replies@) {
            Ok(i) => r == Ok::<usize, String>(i as usize),
            Err(e) => r is Err && r->Err_0@ == "下载规则集 "@ + name@ + " 失败: "@ + e
                + "（启用「规则」模式需要网络）"@,
        },
{
    let mut last = no_mirror();
    let mut i: usize = 0;
    while i < replies.len()
        invariant
            i <= replies@.len(),
            urls@.len() == replies@.len(),
            mirrors_spec(views(urls@.take(i as int)), replies@.take(i as int)) == Err::<nat, Seq<char>>(last@),
        decreases replies@.len() - i,
    {
        proof {
            assert(views(urls@.take(i + 1)).drop_last() =~= views(urls@.take(i as int)));
            assert(replies@.take(i + 1).drop_last() =~= replies@.take(i as int));
            assert(views(urls@.take(i + 1)).last() == urls@[i as int]@);
            assert(replies@.take(i + 1).last() == replies@[i as int]);
        }
        match mirror_result(urls[i].as_str(), &replies[i]) {
            Ok(()) => {
                proof {
                    assert(mirror_error(urls@[i as int]@, replies@[i as int]) is None);
                    lemma_first_ok_stays(urls@, replies@, i as nat);
                }
                return Ok(i);
            },
            Err(e) => {
                last = e;
            },
        }
        i = i + 1;
    }
    assert(urls@.take(replies@.len() as int) =~= urls@);
    assert(replies@.take(replies@.len() as int) =~= replies@);
    Err(asset_failure(name, last.as_str()))
}

/// Once a prefix of the replies has a saved one, every longer prefix
/// reports the same.
proof fn lemma_first_ok_stays(urls: Seq<String>, replies: Seq<MirrorReply>, i: nat)
    requires
        i < replies.len(),
        urls.len() == replies.len(),
        mirrors_spec(views(urls.take(i + 1int)), replies.take(i + 1int)) == Ok::<nat, Seq<char>>(i),
    ensures
        mirrors_spec(views(urls), replies) == Ok::<nat, Seq<char>>(i),
    decreases replies.len() - i,
{
    lemma_ok_extends(urls, replies, (i + 1) as nat, i);
}

proof fn lemma_ok_extends(urls: Seq<String>, replies: Seq<MirrorReply>, k: nat, i: nat)
    requires
        k <= replies.len(),
        urls.len() == replies.len(),
        mirrors_spec(views(urls.take(k as int)), replies.take(k as int)) == Ok::<nat, Seq<char>>(i),
    ensures
        mirrors_spec(views(urls), replies) == Ok::<nat, Seq<char>>(i),
    decreases replies.len() - k,
{
    if k == replies.len() {
        assert(urls.take(k as int) =~= urls);
        assert(replies.take(k as int) =~= replies);
    } else {
        assert(views(urls.take(k + 1int)).drop_last() =~= views(urls.take(k as int)));
        assert(replies.take(k + 1int).drop_last() =~= replies.take(k as int));
        lemma_ok_extends(urls, replies, (k + 1) as nat, i);
    }
}

} // verus!
