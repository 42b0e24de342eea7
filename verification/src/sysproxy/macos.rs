//! macOS: `networksetup` per network service, retried through an
//! administrator-prompted `osascript` run when the plain call is refused.

use vstd::prelude::*;
use crate::subscribe::dec;
use crate::text::{concat, first_idx, find_char, from_chars, join, join_spec, owned, to_chars, trim, trim_bounds, u64_to_string, views};

verus! {

pub open spec fn proxy_kinds() -> Seq<Seq<char>> {
    seq!["web"@, "secureweb"@, "socksfirewall"@]
}

fn kinds() -> (r: Vec<String>)
    ensures
        views(r@) == proxy_kinds(),
        r@.len() == 3,
{
    let v = vec![owned("web"), owned("secureweb"), owned("socksfirewall")];
    assert(views(v@) =~= proxy_kinds());
    v
}

/// The `networksetup` calls that point the three proxy kinds of
/// `service` at 127.0.0.1:`port` and switch them on, in order.
pub fn enable(port: u16, service: &str) -> (plan: Vec<Vec<String>>)
    ensures
        plan@.len() == 6,
        forall|k: int|
            0 <= k < 3 ==> views(#[trigger] plan@[2 * k]@) == seq![
                "-set"@ + proxy_kinds()[k] + "proxy"@,
                service@,
                "127.0.0.1"@,
                dec(port as u64),
            ] && views(plan@[2 * k + 1]@) == seq![
                "-set"@ + proxy_kinds()[k] + "proxystate"@,
                service@,
                "on"@,
            ],
{
    let ks = kinds();
    let p = u64_to_string(port as u64);
    let mut plan: Vec<Vec<String>> = Vec::new();
    let mut k: usize = 0;
    while k < 3
        invariant
            views(ks@) == proxy_kinds(),
            ks@.len() == 3,
            p@ == dec(port as u64),
            k <= 3,
            plan@.len() == 2 * k,
            forall|j: int|
                0 <= j < k ==> views(#[trigger] plan@[2 * j]@) == seq![
                    "-set"@ + proxy_kinds()[j] + "proxy"@,
                    service@,
                    "127.0.0.1"@,
                    dec(port as u64),
                ] && views(plan@[2 * j + 1]@) == seq![
                    "-set"@ + proxy_kinds()[j] + "proxystate"@,
                    service@,
                    "on"@,
                ],
        decreases 3 - k,
    {
        assert(ks@[k as int]@ == proxy_kinds()[k as int]);
        let a = vec![
            concat(concat(owned("-set"), ks[k].as_str()), "proxy"),
            owned(service),
            owned("127.0.0.1"),
            p.clone(),
        ];
        let b = vec![
            concat(concat(owned("-set"), ks[k].as_str()), "proxystate"),
            owned(service),
            owned("on"),
        ];
        assert(views(a@) =~= seq![
            "-set"@ + proxy_kinds()[k as int] + "proxy"@,
            service@,
            "127.0.0.1"@,
            dec(port as u64),
        ]);
        assert(views(b@) =~= seq![
            "-set"@ + proxy_kinds()[k as int] + "proxystate"@,
            service@,
            "on"@,
        ]);
        plan.push(a);
        plan.push(b);
        proof {
            assert(plan@[2 * k as int] == a);
            assert(plan@[2 * k + 1] == b);
        }
        k = k + 1;
    }
    plan
}

/// The `networksetup` calls that switch the three proxy kinds of
/// `service` off, in order.
pub fn disable(service: &str) -> (plan: Vec<Vec<String>>)
    ensures
        plan@.len() == 3,
        forall|k: int|
            0 <= k < 3 ==> views(#[trigger] plan@[k]@) == seq![
                "-set"@ + proxy_kinds()[k] + "proxystate"@,
                service@,
                "off"@,
            ],
{
    let ks = kinds();
    let mut plan: Vec<Vec<String>> = Vec::new();
    let mut k: usize = 0;
    while k < 3
        invariant
            views(ks@) == proxy_kinds(),
            ks@.len() == 3,
            k <= 3,
            plan@.len() == k,
            forall|j: int|
                0 <= j < k ==> views(#[trigger] plan@[j]@) == seq![
                    "-set"@ + proxy_kinds()[j] + "proxystate"@,
                    service@,
                    "off"@,
                ],
        decreases 3 - k,
    {
        assert(ks@[k as int]@ == proxy_kinds()[k as int]);
        let b = vec![
            concat(concat(owned("-set"), ks[k].as_str()), "proxystate"),
            owned(service),
            owned("off"),
        ];
        assert(views(b@) =~= seq!["-set"@ + proxy_kinds()[k as int] + "proxystate"@, service@, "off"@]);
        plan.push(b);
        k = k + 1;
    }
    plan
}

/// `a` quoted for the shell script: wrapped in `"` with `\` and `"`
/// backslash-escaped.
pub open spec fn sh_quote_body(a: Seq<char>) -> Seq<char>
    decreases a.len(),
{
    if a.len() == 0 {
        seq![]
    } else {
        let c = a.last();
        sh_quote_body(a.drop_last()) + if c == '\\' || c == '"' {
            seq!['\\', c]
        } else {
            seq![c]
        }
    }
}

pub open spec fn sh_quote(a: Seq<char>) -> Seq<char> {
    seq!['"'] + sh_quote_body(a) + seq!['"']
}

fn quote_arg(a: &str) -> (r: String)
    ensures
        r@ == sh_quote(a@),
{
    let cs = to_chars(a);
    let mut v: Vec<char> = Vec::new();
    v.push('"');
    let mut i: usize = 0;
    while i < cs.len()
        invariant
            i <= cs@.len(),
            cs@ == a@,
            v@ == seq!['"'] + sh_quote_body(cs@.take(i as int)),
        decreases cs@.len() - i,
    {
        let c = cs[i];
        if c == '\\' || c == '"' {
            v.push('\\');
        }
        v.push(c);
        proof {
            assert(cs@.take(i + 1).drop_last() =~= cs@.take(i as int));
            assert(cs@.take(i + 1).last() == c);
            assert(v@ =~= seq!['"'] + sh_quote_body(cs@.take(i + 1)));
        }
        i = i + 1;
    }
    v.push('"');
    assert(cs@.take(cs@.len() as int) =~= cs@);
    assert(v@ =~= sh_quote(a@));
    from_chars(&v)
}

/// The AppleScript that re-runs `networksetup args...` with administrator
/// privileges.
pub fn admin_script(args: &[String]) -> (r: String)
    ensures
        r@ == "do shell script \"/usr/sbin/networksetup "@ + join_spec(
            args@.map_values(|a: String| sh_quote(a@)),
            " "@,
        ) + "\" with administrator privileges"@,
{
    let mut quoted: Vec<String> = Vec::new();
    let mut i: usize = 0;
    while i < args.len()
        invariant
            i <= args@.len(),
            quoted@.len() == i,
            views(quoted@) == args@.take(i as int).map_values(|a: String| sh_quote(a@)),
        decreases args@.len() - i,
    {
        let q = quote_arg(args[i].as_str());
        let ghost before = quoted@;
        quoted.push(q);
        proof {
            let want = args@.take(i + 1).map_values(|a: String| sh_quote(a@));
            let prev = args@.take(i as int).map_values(|a: String| sh_quote(a@));
            assert forall|j: int| 0 <= j < i + 1 implies #[trigger] views(quoted@)[j] == want[j] by {
                if j < i {
                    assert(views(quoted@)[j] == quoted@[j]@);
                    assert(quoted@[j] == before[j]);
                    assert(views(before)[j] == prev[j]);
                } else {
                    assert(views(quoted@)[j] == q@);
                }
            }
            assert(views(quoted@) =~= want);
        }
        i = i + 1;
    }
    assert(args@.take(args@.len() as int) =~= args@);
    let r = concat(owned("do shell script \"/usr/sbin/networksetup "), join(&quoted, " ").as_str());
    concat(r, "\" with administrator privileges")
}

/// Network services listed by `networksetup -listallnetworkservices`:
/// each line trimmed, blank lines and disabled (`*`) entries skipped.
pub open spec fn services_spec(s: Seq<char>) -> Seq<Seq<char>>
    decreases s.len(),
{
    let j = first_idx(s, '\n');
    let l = trim(s.take(j as int));
    let head = if l.len() > 0 && l[0] != '*' {
        seq![l]
    } else {
        seq![]
    };
    if j >= s.len() {
        head
    } else {
        head + services_spec(s.skip(j + 1int))
    }
}

pub fn parse_services(out: &str) -> (r: Vec<String>)
    ensures
        views(r@) == services_spec(out@),
{
    let s = to_chars(out);
    let n = s.len();
    let mut r: Vec<String> = Vec::new();
    let mut pos: usize = 0;
    assert(s@.subrange(0, n as int) =~= s@);
    loop
        invariant
            n == s@.len(),
            s@ == out@,
            pos <= n,
            services_spec(out@) == views(r@) + services_spec(s@.subrange(pos as int, n as int)),
        decreases n - pos,
    {
        let j = find_char(&s, pos, n, '\n');
        let ghost rest = s@.subrange(pos as int, n as int);
        assert(rest.take((j - pos) as int) =~= s@.subrange(pos as int, j as int));
        let (a, b) = trim_bounds(&s, pos, j);
        let ghost old_r = r@;
        if a < b && s[a] != '*' {
            let mut v: Vec<char> = Vec::new();
            let mut i = a;
            while i < b
                invariant
                    a <= i <= b <= s@.len(),
                    v@ == s@.subrange(a as int, i as int),
                decreases b - i,
            {
                v.push(s[i]);
                i = i + 1;
                assert(v@ =~= s@.subrange(a as int, i as int));
            }
            r.push(from_chars(&v));
        }
        proof {
            let l = trim(rest.take((j - pos) as int));
            assert(l == s@.subrange(a as int, b as int));
            let head = if l.len() > 0 && l[0] != '*' {
                seq![l]
            } else {
                seq![]
            };
            assert(views(r@) =~= views(old_r) + head);
        }
        if j >= n {
            assert(services_spec(rest) == views(r@).skip(views(old_r).len() as int));
            assert(services_spec(out@) =~= views(r@));
            return r;
        }
        assert(rest.skip((j - pos) + 1) =~= s@.subrange(j + 1, n as int));
        pos = j + 1;
    }
}

/// "`service`: `error`" for every service whose call failed, in order.
pub open spec fn failures_spec(services: Seq<String>, errors: Seq<Option<String>>) -> Seq<Seq<char>>
    decreases services.len(),
{
    if services.len() == 0 || errors.len() == 0 {
        seq![]
    } else {
        let rest = failures_spec(services.drop_last(), errors.drop_last());
        match errors.last() {
            Some(e) => rest.push(services.last()@ + ": "@ + e@),
            None => rest,
        }
    }
}

/// Outcome of applying a plan to every network service, given each
/// service's error (`None` when it applied): no service at all or every
/// service failing is an error; a partial failure succeeds with a warning.
pub fn service_outcome(services: &[String], errors: &[Option<String>]) -> (r: Result<
    Option<String>,
    String,
>)
    requires
        services@.len() == errors@.len(),
    ensures
        services@.len() == 0 ==> r is Err && r->Err_0@ == "未找到可用的网络服务"@,
        services@.len() > 0 ==> {
            let f = failures_spec(services@, errors@);
            if f.len() == services@.len() {
                r is Err && r->Err_0@ == join_spec(f, "; "@)
            } else if f.len() == 0 {
                r == Ok::<Option<String>, String>(None)
            } else {
                r is Ok && r->Ok_0 is Some && r->Ok_0->Some_0@ == join_spec(f, "; "@)
            }
        },
{
    let n = services.len();
    if n == 0 {
        return Err(owned("未找到可用的网络服务"));
    }
    let mut failures: Vec<String> = Vec::new();
    let mut i: usize = 0;
    while i < n
        invariant
            n == services@.len() == errors@.len(),
            i <= n,
            views(failures@) == failures_spec(services@.take(i as int), errors@.take(i as int)),
            failures@.len() <= i,
        decreases n - i,
    {
        proof {
            assert(services@.take(i + 1).drop_last() =~= services@.take(i as int));
            assert(errors@.take(i + 1).drop_last() =~= errors@.take(i as int));
        }
        match &errors[i] {
            Some(e) => {
                let f = concat(concat(services[i].clone(), ": "), e.as_str());
                failures.push(f);
                assert(views(failures@) =~= failures_spec(
                    services@.take(i + 1),
                    errors@.take(i + 1),
                ));
            },
            None => {
                assert(views(failures@) =~= failures_spec(
                    services@.take(i + 1),
                    errors@.take(i + 1),
                ));
            },
        }
        i = i + 1;
    }
    assert(services@.take(n as int) =~= services@);
    assert(errors@.take(n as int) =~= errors@);
    let joined = join(&failures, "; ");
    assert(views(failures@).len() == failures@.len());
    if failures.len() == n {
        Err(joined)
    } else if failures.len() == 0 {
        Ok(None)
    } else {
        Ok(Some(joined))
    }
}

} // verus!
