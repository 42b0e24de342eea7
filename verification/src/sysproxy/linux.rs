//! GNOME: the proxy lives in the `org.gnome.system.proxy` gsettings schemas.

use vstd::prelude::*;
use crate::subscribe::dec;
use crate::text::{concat, from_chars, join, join_spec, owned, to_chars, trim, trim_bounds, u64_to_string, views};

verus! {

/// Error reported when the `gsettings` tool cannot be run.
pub fn unavailable_message() -> (r: String)
    ensures
        r@ == "gsettings 不可用（当前桌面可能不是 GNOME）"@,
{
    owned("gsettings 不可用（当前桌面可能不是 GNOME）")
}

/// Error reported when a `gsettings` call exits unsuccessfully.
pub fn failure_message(args: &[String], stderr: &str) -> (r: String)
    ensures
        r@ == "gsettings "@ + join_spec(views(args@), " "@) + " failed: "@ + trim(stderr@),
{
    let cs = to_chars(stderr);
    let (a, b) = trim_bounds(&cs, 0, cs.len());
    assert(cs@.subrange(0, cs@.len() as int) =~= cs@);
    let mut t: Vec<char> = Vec::new();
    let mut i = a;
    while i < b
        invariant
            a <= i <= b <= cs@.len(),
            t@ == cs@.subrange(a as int, i as int),
        decreases b - i,
    {
        t.push(cs[i]);
        i = i + 1;
        assert(t@ =~= cs@.subrange(a as int, i as int));
    }
    let r = concat(owned("gsettings "), join(args, " ").as_str());
    let r = concat(r, " failed: ");
    concat(r, from_chars(&t).as_str())
}

fn args4(a: &str, b: &str, c: &str, d: &str) -> (r: Vec<String>)
    ensures
        views(r@) == seq![a@, b@, c@, d@],
{
    let v = vec![owned(a), owned(b), owned(c), owned(d)];
    assert(views(v@) =~= seq![a@, b@, c@, d@]);
    v
}

/// The argument views of a list of calls.
pub open spec fn calls_view(plan: Seq<Vec<String>>) -> Seq<Seq<Seq<char>>> {
    plan.map_values(|c: Vec<String>| views(c@))
}

/// The calls of `enable(port)`.
pub open spec fn enable_calls(port: u16) -> Seq<Seq<Seq<char>>> {
    seq![
        seq!["set"@, "org.gnome.system.proxy"@, "mode"@, "manual"@],
        seq!["set"@, "org.gnome.system.proxy.http"@, "host"@, "127.0.0.1"@],
        seq!["set"@, "org.gnome.system.proxy.http"@, "port"@, dec(port as u64)],
        seq!["set"@, "org.gnome.system.proxy.https"@, "host"@, "127.0.0.1"@],
        seq!["set"@, "org.gnome.system.proxy.https"@, "port"@, dec(port as u64)],
        seq!["set"@, "org.gnome.system.proxy.socks"@, "host"@, "127.0.0.1"@],
        seq!["set"@, "org.gnome.system.proxy.socks"@, "port"@, dec(port as u64)],
        seq!["set"@, "org.gnome.system.proxy"@, "ignore-hosts"@, "['localhost', '127.0.0.0/8', '::1']"@],
    ]
}

/// The calls of `disable()`.
pub open spec fn disable_calls() -> Seq<Seq<Seq<char>>> {
    seq![seq!["set"@, "org.gnome.system.proxy"@, "mode"@, "none"@]]
}

/// The `gsettings` calls that route system HTTP/HTTPS/SOCKS traffic through
/// 127.0.0.1:`port`, in order; the first failing call aborts the rest.
pub fn enable(port: u16) -> (plan: Vec<Vec<String>>)
    ensures
        plan@.len() == 8,
        views(plan@[0]@) == seq!["set"@, "org.gnome.system.proxy"@, "mode"@, "manual"@],
        views(plan@[1]@) == seq!["set"@, "org.gnome.system.proxy.http"@, "host"@, "127.0.0.1"@],
        views(plan@[2]@) == seq!["set"@, "org.gnome.system.proxy.http"@, "port"@, dec(port as u64)],
        views(plan@[3]@) == seq!["set"@, "org.gnome.system.proxy.https"@, "host"@, "127.0.0.1"@],
        views(plan@[4]@) == seq!["set"@, "org.gnome.system.proxy.https"@, "port"@, dec(port as u64)],
        views(plan@[5]@) == seq!["set"@, "org.gnome.system.proxy.socks"@, "host"@, "127.0.0.1"@],
        views(plan@[6]@) == seq!["set"@, "org.gnome.system.proxy.socks"@, "port"@, dec(port as u64)],
        views(plan@[7]@) == seq![
            "set"@,
            "org.gnome.system.proxy"@,
            "ignore-hosts"@,
            "['localhost', '127.0.0.0/8', '::1']"@,
        ],
        calls_view(plan@) == enable_calls(port),
{
    let p = u64_to_string(port as u64);
    let ps = p.as_str();
    let mut plan: Vec<Vec<String>> = Vec::new();
    plan.push(args4("set", "org.gnome.system.proxy", "mode", "manual"));
    plan.push(args4("set", "org.gnome.system.proxy.http", "host", "127.0.0.1"));
    plan.push(args4("set", "org.gnome.system.proxy.http", "port", ps));
    plan.push(args4("set", "org.gnome.system.proxy.https", "host", "127.0.0.1"));
    plan.push(args4("set", "org.gnome.system.proxy.https", "port", ps));
    plan.push(args4("set", "org.gnome.system.proxy.socks", "host", "127.0.0.1"));
    plan.push(args4("set", "org.gnome.system.proxy.socks", "port", ps));
    plan.push(
        args4("set", "org.gnome.system.proxy", "ignore-hosts", "['localhost', '127.0.0.0/8', '::1']"),
    );
    assert(calls_view(plan@) =~= enable_calls(port));
    plan
}

/// The `gsettings` call that restores the system proxy to "none".
pub fn disable() -> (plan: Vec<Vec<String>>)
    ensures
        plan@.len() == 1,
        views(plan@[0]@) == seq!["set"@, "org.gnome.system.proxy"@, "mode"@, "none"@],
        calls_view(plan@) == disable_calls(),
{
    let mut plan: Vec<Vec<String>> = Vec::new();
    plan.push(args4("set", "org.gnome.system.proxy", "mode", "none"));
    assert(calls_view(plan@) =~= disable_calls());
    plan
}

/// The `gsettings get` calls whose outputs `leftover_at` reads: mode, HTTP
/// host, HTTP port.
pub fn leftover_queries() -> (plan: Vec<Vec<String>>)
    ensures
        plan@.len() == 3,
        views(plan@[0]@) == seq!["get"@, "org.gnome.system.proxy"@, "mode"@],
        views(plan@[1]@) == seq!["get"@, "org.gnome.system.proxy.http"@, "host"@],
        views(plan@[2]@) == seq!["get"@, "org.gnome.system.proxy.http"@, "port"@],
{
    let mut plan: Vec<Vec<String>> = Vec::new();
    let v = vec![owned("get"), owned("org.gnome.system.proxy"), owned("mode")];
    assert(views(v@) =~= seq!["get"@, "org.gnome.system.proxy"@, "mode"@]);
    plan.push(v);
    let v = vec![owned("get"), owned("org.gnome.system.proxy.http"), owned("host")];
    assert(views(v@) =~= seq!["get"@, "org.gnome.system.proxy.http"@, "host"@]);
    plan.push(v);
    let v = vec![owned("get"), owned("org.gnome.system.proxy.http"), owned("port")];
    assert(views(v@) =~= seq!["get"@, "org.gnome.system.proxy.http"@, "port"@]);
    plan.push(v);
    plan
}

/// Number of leading `'` characters.
pub open spec fn lead_quotes(s: Seq<char>) -> nat
    decreases s.len(),
{
    if s.len() > 0 && s[0] == '\'' {
        1 + lead_quotes(s.drop_first())
    } else {
        0
    }
}

/// Number of trailing `'` characters.
pub open spec fn trail_quotes(s: Seq<char>) -> nat
    decreases s.len(),
{
    if s.len() > 0 && s.last() == '\'' {
        1 + trail_quotes(s.drop_last())
    } else {
        0
    }
}

/// `s.trim_matches('\'')`.
pub open spec fn unquote(s: Seq<char>) -> Seq<char> {
    let a = lead_quotes(s);
    if a >= s.len() {
        seq![]
    } else {
        s.subrange(a as int, s.len() - trail_quotes(s))
    }
}

/// A `gsettings get` value as printed: trimmed, GVariant quotes removed.
pub open spec fn gvalue(out: Seq<char>) -> Seq<char> {
    unquote(trim(out))
}

proof fn lemma_lead_quotes(s: Seq<char>, k: int)
    requires
        0 <= k <= s.len(),
        forall|i: int| 0 <= i < k ==> #[trigger] s[i] == '\'',
        k < s.len() ==> s[k] != '\'',
    ensures
        lead_quotes(s) == k,
    decreases s.len(),
{
    if k > 0 {
        assert forall|i: int| 0 <= i < k - 1 implies #[trigger] s.drop_first()[i] == '\'' by {
            assert(s.drop_first()[i] == s[i + 1]);
        }
        assert(s[0] == '\'');
        lemma_lead_quotes(s.drop_first(), k - 1);
    }
}

proof fn lemma_trail_quotes(s: Seq<char>, k: int)
    requires
        0 <= k <= s.len(),
        forall|i: int| s.len() - k <= i < s.len() ==> #[trigger] s[i] == '\'',
        k < s.len() ==> s[s.len() - k - 1] != '\'',
    ensures
        trail_quotes(s) == k,
    decreases s.len(),
{
    if k > 0 {
        let t = s.drop_last();
        assert(s[s.len() - 1] == '\'');
        assert forall|i: int| t.len() - (k - 1) <= i < t.len() implies #[trigger] t[i] == '\'' by {
            assert(t[i] == s[i]);
        }
        if k - 1 < t.len() {
            assert(t[t.len() - (k - 1) - 1] == s[s.len() - k - 1]);
        }
        lemma_trail_quotes(t, k - 1);
    }
}

/// Normalizes the stdout of `gsettings get`.
pub fn gsettings_value(out: &str) -> (r: String)
    ensures
        r@ == gvalue(out@),
{
    let cs = to_chars(out);
    let (a, b) = trim_bounds(&cs, 0, cs.len());
    assert(cs@.subrange(0, cs@.len() as int) =~= cs@);
    let ghost t = cs@.subrange(a as int, b as int);
    let mut lo = a;
    while lo < b && cs[lo] == '\''
        invariant
            a <= lo <= b <= cs@.len(),
            forall|i: int| a <= i < lo ==> #[trigger] cs@[i] == '\'',
        decreases b - lo,
    {
        lo = lo + 1;
    }
    proof {
        assert forall|i: int| 0 <= i < lo - a implies #[trigger] t[i] == '\'' by {
            assert(t[i] == cs@[a + i]);
        }
        if lo - a < t.len() {
            assert(t[lo - a] == cs@[lo as int]);
        }
        lemma_lead_quotes(t, lo - a);
    }
    if lo >= b {
        return String::new();
    }
    let mut hi = b;
    while hi > lo && cs[hi - 1] == '\''
        invariant
            a <= lo < b,
            lo <= hi <= b <= cs@.len(),
            forall|i: int| hi <= i < b ==> #[trigger] cs@[i] == '\'',
            cs@[lo as int] != '\'',
        decreases hi - lo,
    {
        hi = hi - 1;
    }
    proof {
        assert(t[lo - a] == cs@[lo as int]);
        assert forall|i: int| t.len() - (b - hi) <= i < t.len() implies #[trigger] t[i] == '\'' by {
            assert(t[i] == cs@[a + i]);
        }
        if b - hi < t.len() {
            assert(t[t.len() - (b - hi) - 1] == cs@[hi - 1]);
        }
        lemma_trail_quotes(t, (b - hi) as int);
    }
    let mut v: Vec<char> = Vec::new();
    let mut i = lo;
    while i < hi
        invariant
            lo <= i <= hi <= cs@.len(),
            v@ == cs@.subrange(lo as int, i as int),
        decreases hi - i,
    {
        v.push(cs[i]);
        i = i + 1;
        assert(v@ =~= cs@.subrange(lo as int, i as int));
    }
    assert(t.subrange(lo - a, t.len() - (b - hi)) =~= cs@.subrange(lo as int, hi as int));
    from_chars(&v)
}

/// The view of an optional string.
pub open spec fn opt_view(o: Option<&str>) -> Option<Seq<char>> {
    match o {
        Some(s) => Some(s@),
        None => None,
    }
}

/// The gsettings outputs show a manual proxy at 127.0.0.1:`port`.
pub open spec fn leftover_spec(
    port: u16,
    mode: Option<Seq<char>>,
    host: Option<Seq<char>>,
    port_out: Option<Seq<char>>,
) -> bool {
    &&& mode is Some && gvalue(mode.unwrap()) == "manual"@
    &&& host is Some && gvalue(host.unwrap()) == "127.0.0.1"@
    &&& port_out is Some && gvalue(port_out.unwrap()) == dec(port as u64)
}

/// Whether the GNOME proxy is still routed to 127.0.0.1:`port` in manual
/// mode (a route this app enabled and a crashed run could not restore),
/// given the outputs of the `leftover_queries` calls (`None` for a call
/// that failed).
pub fn leftover_at(port: u16, mode: Option<&str>, host: Option<&str>, port_out: Option<&str>) -> (r:
    bool)
    ensures
        r == leftover_spec(port, opt_view(mode), opt_view(host), opt_view(port_out)),
{
    let m = match mode {
        Some(m) => gsettings_value(m),
        None => String::new(),
    };
    proof {
        reveal_strlit("manual");
    }
    let is_manual = m == owned("manual");
    if !is_manual {
        assert(mode is None ==> m@.len() == 0);
        return false;
    }
    let h = match host {
        Some(h) => gsettings_value(h),
        None => String::new(),
    };
    let p = match port_out {
        Some(p) => gsettings_value(p),
        None => String::new(),
    };
    proof {
        reveal_strlit("manual");
        reveal_strlit("127.0.0.1");
        assert(m@ == "manual"@);
        assert("manual"@.len() == 6);
        assert(mode is Some);
        assert(gvalue(mode.unwrap()@) == "manual"@);
        if host is None {
            assert(h@.len() == 0);
            assert("127.0.0.1"@.len() == 9);
        }
        if port_out is None {
            assert(p@.len() == 0);
            crate::text::lemma_decimal_digits_nonempty(port as nat);
        }
    }
    h == owned("127.0.0.1") && p == u64_to_string(port as u64)
}

} // verus!
