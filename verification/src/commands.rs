//! Decisions behind the UI commands: node filtering by address family,
//! input validation, session selection, guards against concurrent work,
//! subscription auto-refresh scheduling and result summaries.

use vstd::prelude::*;
use std::collections::HashSet;
use crate::corectl::{ImportResult, NodeMeta, UrlTestRow};
use crate::db::{Group, NewNode, Node};
use crate::json;
use crate::netaddr::{is_ipv6_literal, is_ipv6_range};
use crate::text::{concat, find_char, first_idx, owned, parse_i64_range, parse_i64_spec, range_eq, to_chars, trim, trim_bounds, u64_to_string};

verus! {

/// Built-in aggregate group id ("All"): its lists span every normal group.
pub const ALL_GROUP_ID: i64 = 1;

/// `host` without surrounding brackets: `[h]...` gives `h` when a closing
/// bracket follows, anything else is unchanged.
pub open spec fn unbracket(h: Seq<char>) -> Seq<char> {
    if h.len() > 0 && h[0] == '[' {
        let t = h.drop_first();
        let j = first_idx(t, ']');
        if j < t.len() {
            t.take(j as int)
        } else {
            h
        }
    } else {
        h
    }
}

/// `host` without a `%zone` suffix.
pub open spec fn unzone(h: Seq<char>) -> Seq<char> {
    h.take(first_idx(h, '%') as int)
}

/// A server host that is an IPv6 literal, tolerating brackets and zones.
pub open spec fn host_is_ipv6(host: Seq<char>) -> bool {
    is_ipv6_literal(unzone(unbracket(trim(host))))
}

/// The outbound's `server` is an IPv6 literal (domains and IPv4 pass).
pub open spec fn server_is_ipv6(out: Seq<char>) -> bool {
    match json::json_str_field(out, "server"@) {
        Some(h) => host_is_ipv6(h),
        None => false,
    }
}

/// Whether a server host is an IPv6 literal ("[...]" brackets and "%zone"
/// suffixes tolerated).
pub fn host_ipv6(host: &str) -> (r: bool)
    ensures
        r == host_is_ipv6(host@),
{
    let s = to_chars(host);
    let (a, b) = trim_bounds(&s, 0, s.len());
    assert(s@.subrange(0, s@.len() as int) =~= s@);
    let ghost t = s@.subrange(a as int, b as int);
    let mut lo = a;
    let mut hi = b;
    if a < b && s[a] == '[' {
        let j = find_char(&s, a + 1, b, ']');
        assert(t.drop_first() =~= s@.subrange(a + 1, b as int));
        if j < b {
            lo = a + 1;
            hi = j;
            assert(t.drop_first().take((j - (a + 1)) as int) =~= s@.subrange(a + 1, j as int));
        }
    }
    assert(unbracket(t) =~= s@.subrange(lo as int, hi as int));
    let z = find_char(&s, lo, hi, '%');
    assert(unzone(s@.subrange(lo as int, hi as int)) =~= s@.subrange(lo as int, z as int));
    is_ipv6_range(&s, lo, z)
}

/// True when a node's server field is an IPv6 literal (domains pass).
/// `out` is the node's outbound JSON; without a string `server` member the
/// node is not IPv6.
pub fn is_ipv6_server(out: &str) -> (r: bool)
    ensures
        r == server_is_ipv6(out@),
{
    match json::str_field(out, "server") {
        Some(h) => host_ipv6(h.as_str()),
        None => false,
    }
}

/// The nodes kept by the "filter IPv6 nodes" preference, in order.
pub open spec fn kept_nodes(nodes: Seq<NodeMeta>) -> Seq<NodeMeta>
    decreases nodes.len(),
{
    if nodes.len() == 0 {
        seq![]
    } else {
        let rest = kept_nodes(nodes.drop_last());
        if server_is_ipv6(nodes.last().out@) {
            rest
        } else {
            rest.push(nodes.last())
        }
    }
}

/// Applies the "filter IPv6 nodes" preference to parsed nodes.
pub fn filter_nodes(nodes: &[NodeMeta], filter_ipv6: bool) -> (r: Vec<NodeMeta>)
    ensures
        !filter_ipv6 ==> r@ == nodes@,
        filter_ipv6 ==> r@ == kept_nodes(nodes@),
{
    let mut out: Vec<NodeMeta> = Vec::new();
    let mut i: usize = 0;
    while i < nodes.len()
        invariant
            i <= nodes@.len(),
            !filter_ipv6 ==> out@ == nodes@.take(i as int),
            filter_ipv6 ==> out@ == kept_nodes(nodes@.take(i as int)),
        decreases nodes@.len() - i,
    {
        proof {
            assert(nodes@.take(i + 1).drop_last() =~= nodes@.take(i as int));
            assert(nodes@.take(i + 1).last() == nodes@[i as int]);
        }
        if !filter_ipv6 || !is_ipv6_server(nodes[i].out.as_str()) {
            out.push(nodes[i].duplicate());
        }
        i = i + 1;
        assert(!filter_ipv6 ==> out@ =~= nodes@.take(i as int));
    }
    assert(nodes@.take(nodes@.len() as int) =~= nodes@);
    out
}

/// Whether a routing profile's final outbound is one of proxy / direct /
/// block.
pub fn route_final_valid(v: &str) -> (r: bool)
    ensures
        r == (v@ == "proxy"@ || v@ == "direct"@ || v@ == "block"@),
{
    let s = to_chars(v);
    assert(s@.subrange(0, s@.len() as int) =~= s@);
    range_eq(&s, 0, s.len(), "proxy") || range_eq(&s, 0, s.len(), "direct") || range_eq(
        &s,
        0,
        s.len(),
        "block",
    )
}

/// Whether routing rules are a JSON array of objects.
pub open spec fn rules_valid_spec(s: Seq<char>) -> bool {
    match json::json_object_flags(s) {
        Some(f) => forall|i: int| 0 <= i < f.len() ==> #[trigger] f[i],
        None => false,
    }
}

pub fn route_rules_valid(s: &str) -> (r: bool)
    ensures
        r == rules_valid_spec(s@),
{
    match json::object_flags(s) {
        Some(f) => {
            let mut i: usize = 0;
            while i < f.len()
                invariant
                    i <= f@.len(),
                    json::json_object_flags(s@) == Some(f@),
                    forall|j: int| 0 <= j < i ==> #[trigger] f@[j],
                decreases f@.len() - i,
            {
                if !f[i] {
                    assert(!json::json_object_flags(s@).unwrap()[i as int]);
                    return false;
                }
                i = i + 1;
            }
            true
        },
        None => false,
    }
}

/// The strategy group named by a `strat:<gid>` pseudo-node id.
pub open spec fn strat_id_spec(id: Seq<char>) -> Option<i64> {
    if id.len() >= 6 && id.take(6) == "strat:"@ {
        parse_i64_spec(id.skip(6))
    } else {
        None
    }
}

pub fn strat_id(id: &str) -> (r: Option<i64>)
    ensures
        r == strat_id_spec(id@),
{
    let s = to_chars(id);
    proof {
        reveal_strlit("strat:");
    }
    if s.len() >= 6 && range_eq(&s, 0, 6, "strat:") {
        assert(s@.subrange(0, 6) =~= s@.take(6));
        assert(s@.subrange(6, s@.len() as int) =~= s@.skip(6));
        parse_i64_range(&s, 6, s.len())
    } else {
        proof {
            if s@.len() >= 6 {
                assert(s@.subrange(0, 6) =~= s@.take(6));
            }
        }
        None
    }
}

/// Splits selected row ids into real node ids and strategy-group ids
/// (`strat:<gid>`), each in order.
pub fn split_copy_ids(ids: &[String]) -> (r: (Vec<String>, Vec<i64>))
    ensures
        r.0@ == ids@.filter(|id: String| strat_id_spec(id@) is None),
        r.1@ == ids@.filter(|id: String| strat_id_spec(id@) is Some).map_values(
            |id: String| strat_id_spec(id@).unwrap(),
        ),
{
    let mut plain: Vec<String> = Vec::new();
    let mut strats: Vec<i64> = Vec::new();
    let mut i: usize = 0;
    while i < ids.len()
        invariant
            i <= ids@.len(),
            plain@ == ids@.take(i as int).filter(|id: String| strat_id_spec(id@) is None),
            strats@ == ids@.take(i as int).filter(|id: String| strat_id_spec(id@) is Some).map_values(
                |id: String| strat_id_spec(id@).unwrap(),
            ),
        decreases ids@.len() - i,
    {
        proof {
            assert(ids@.take(i + 1).drop_last() =~= ids@.take(i as int));
            assert(ids@.take(i + 1).last() == ids@[i as int]);
        }
        match strat_id(ids[i].as_str()) {
            Some(g) => {
                strats.push(g);
            },
            None => {
                plain.push(ids[i].clone());
            },
        }
        i = i + 1;
        proof {
            let p = ids@.take(i as int);
            reveal_with_fuel(Seq::filter, 1);
            assert(p.drop_last() =~= ids@.take(i - 1));
            assert(strats@ =~= p.filter(|id: String| strat_id_spec(id@) is Some).map_values(
                |id: String| strat_id_spec(id@).unwrap(),
            ));
        }
    }
    assert(ids@.take(ids@.len() as int) =~= ids@);
    (plain, strats)
}


/// Status of the core instance and the system proxy, as shown in the UI.
#[derive(Clone, Debug)]
pub struct CoreStatusView {
    pub running: bool,
    pub started_at: Option<String>,
    pub proxy_enabled: bool,
}

#[derive(Clone, Debug)]
pub struct RunResult {
    pub status: CoreStatusView,
    pub selected_node: Option<String>,
}

/// One latency measurement: a delay or an error.
#[derive(Clone, Debug)]
pub struct MeasureView {
    pub delay_ms: Option<i64>,
    pub error: Option<String>,
}

/// One measured node row of a batch.
#[derive(Clone, Debug)]
pub struct BatchRow {
    pub node_id: String,
    pub delay_ms: Option<i64>,
    pub error: Option<String>,
}

/// Outcome of copying nodes between groups.
#[derive(Clone, Debug)]
pub struct CopyView {
    pub inserted: usize,
    pub duplicated: usize,
}

/// Single-flight guard for latency tests: overlapping measurements double
/// the probe burst against exit servers, so a second concurrent one is
/// rejected instead of stacked.
pub struct MeasureGuard {
    _held: (),
}

impl MeasureGuard {
    pub fn acquire(busy: &mut bool) -> (r: Result<MeasureGuard, String>)
        ensures
            *old(busy) ==> r is Err && *final(busy) && r->Err_0@ == "已有测速任务进行中，请稍候再试"@,
            !*old(busy) ==> r is Ok && *final(busy),
    {
        if *busy {
            return Err(owned("已有测速任务进行中，请稍候再试"));
        }
        *busy = true;
        Ok(MeasureGuard { _held: () })
    }

    /// Ends the measurement.
    pub fn release(self, busy: &mut bool)
        ensures
            !*final(busy),
    {
        *busy = false;
    }
}

/// Guard preventing concurrent refreshes of the same subscription group.
pub struct RefreshGuard {
    group_id: i64,
}

impl RefreshGuard {
    pub closed spec fn group(&self) -> i64 {
        self.group_id
    }

    pub fn acquire(updating: &mut HashSet<i64>, group_id: i64) -> (r: Result<RefreshGuard, String>)
        ensures
            old(updating)@.contains(group_id) ==> r is Err && final(updating)@ == old(updating)@
                && r->Err_0@ == "该订阅正在更新中"@,
            !old(updating)@.contains(group_id) ==> r is Ok && r->Ok_0.group() == group_id
                && final(updating)@ == old(updating)@.insert(group_id),
    {
        broadcast use vstd::std_specs::hash::group_hash_axioms;

        if updating.contains(&group_id) {
            return Err(owned("该订阅正在更新中"));
        }
        updating.insert(group_id);
        Ok(RefreshGuard { group_id })
    }

    /// Ends the refresh of the guarded group.
    pub fn release(self, updating: &mut HashSet<i64>)
        ensures
            final(updating)@ == old(updating)@.remove(self.group()),
    {
        broadcast use vstd::std_specs::hash::group_hash_axioms;

        updating.remove(&self.group_id);
    }
}

/// Decimal unix-seconds timestamp text.
pub fn unix_now_secs(now: u64) -> (r: String)
    ensures
        r@ == crate::subscribe::dec(now),
{
    u64_to_string(now)
}

/// Seconds between automatic refreshes for a configured interval in
/// minutes (at least five minutes).
pub open spec fn refresh_interval_secs(minutes: u32) -> int {
    (if minutes < 5 {
        5
    } else {
        minutes
    }) * 60
}

/// A subscription group whose last successful refresh is at least one
/// interval old (a group never refreshed counts as refreshed at time 0).
pub open spec fn is_due(g: Group, now: u64, minutes: u32) -> bool {
    let last: int = match g.last_update_epoch {
        Some(e) => if e >= 0 {
            e as int
        } else {
            0
        },
        None => 0,
    };
    let elapsed: int = if now >= last {
        now - last
    } else {
        0
    };
    g.sub_url is Some && elapsed >= refresh_interval_secs(minutes)
}

pub open spec fn due_spec(groups: Seq<Group>, now: u64, minutes: u32) -> Seq<i64>
    decreases groups.len(),
{
    if groups.len() == 0 {
        seq![]
    } else {
        let rest = due_spec(groups.drop_last(), now, minutes);
        if is_due(groups.last(), now, minutes) {
            rest.push(groups.last().id)
        } else {
            rest
        }
    }
}

/// Ids of the subscription groups the background loop refreshes now, in
/// group order (none while auto-update is off).
pub fn due_groups(groups: &[Group], now: u64, enabled: bool, minutes: u32) -> (r: Vec<i64>)
    ensures
        !enabled ==> r@.len() == 0,
        enabled ==> r@ == due_spec(groups@, now, minutes),
{
    let mut out: Vec<i64> = Vec::new();
    if !enabled {
        return out;
    }
    let interval: u64 = (if minutes < 5 {
        5
    } else {
        minutes
    }) as u64 * 60;
    let mut i: usize = 0;
    while i < groups.len()
        invariant
            i <= groups@.len(),
            interval == refresh_interval_secs(minutes),
            out@ == due_spec(groups@.take(i as int), now, minutes),
        decreases groups@.len() - i,
    {
        let g = &groups[i];
        proof {
            assert(groups@.take(i + 1).drop_last() =~= groups@.take(i as int));
            assert(groups@.take(i + 1).last() == *g);
        }
        let last: u64 = match g.last_update_epoch {
            Some(e) => if e >= 0 {
                e as u64
            } else {
                0
            },
            None => 0,
        };
        let elapsed = if now >= last {
            now - last
        } else {
            0
        };
        if g.sub_url.is_some() && elapsed >= interval {
            out.push(g.id);
        }
        i = i + 1;
    }
    assert(groups@.take(groups@.len() as int) =~= groups@);
    out
}

/// Smallest delay among the rows that have one.
pub open spec fn min_delay(rows: Seq<UrlTestRow>) -> Option<i64>
    decreases rows.len(),
{
    if rows.len() == 0 {
        None
    } else {
        let rest = min_delay(rows.drop_last());
        match rows.last().delay_ms {
            Some(d) => match rest {
                Some(m) => Some(if d < m {
                    d
                } else {
                    m
                }),
                None => Some(d),
            },
            None => rest,
        }
    }
}

/// Number of rows that carry an error.
pub open spec fn failed_count(rows: Seq<UrlTestRow>) -> nat
    decreases rows.len(),
{
    if rows.len() == 0 {
        0
    } else {
        failed_count(rows.drop_last()) + if rows.last().error is Some {
            1nat
        } else {
            0
        }
    }
}

/// Result of measuring a strategy pseudo-node: the fastest member's delay,
/// or an error counting the failed members when none answered.
pub fn strategy_measure(rows: &[UrlTestRow]) -> (r: MeasureView)
    ensures
        min_delay(rows@) is Some ==> r.delay_ms == min_delay(rows@) && r.error is None,
        min_delay(rows@) is None ==> r.delay_ms is None && r.error is Some && r.error->Some_0@
            == "成员全部失败（"@ + crate::subscribe::dec(failed_count(rows@) as u64) + "/"@
            + crate::subscribe::dec(rows@.len() as u64) + "）"@,
{
    let mut best: Option<i64> = None;
    let mut failed: usize = 0;
    let mut i: usize = 0;
    while i < rows.len()
        invariant
            i <= rows@.len(),
            best == min_delay(rows@.take(i as int)),
            failed == failed_count(rows@.take(i as int)),
            failed <= i,
        decreases rows@.len() - i,
    {
        proof {
            assert(rows@.take(i + 1).drop_last() =~= rows@.take(i as int));
            assert(rows@.take(i + 1).last() == rows@[i as int]);
        }
        if rows[i].error.is_some() {
            failed = failed + 1;
        }
        match rows[i].delay_ms {
            Some(d) => {
                best = match best {
                    Some(m) => Some(if d < m {
                        d
                    } else {
                        m
                    }),
                    None => Some(d),
                };
            },
            None => {},
        }
        i = i + 1;
    }
    assert(rows@.take(rows@.len() as int) =~= rows@);
    match best {
        Some(ms) => MeasureView { delay_ms: Some(ms), error: None },
        None => {
            let m = concat(owned("成员全部失败（"), u64_to_string(failed as u64).as_str());
            let m = concat(m, "/");
            let m = concat(m, u64_to_string(rows.len() as u64).as_str());
            MeasureView { delay_ms: None, error: Some(concat(m, "）")) }
        },
    }
}

/// Strictly increasing.
pub open spec fn sorted_strict(s: Seq<i64>) -> bool {
    forall|i: int, j: int| 0 <= i < j < s.len() ==> s[i] < s[j]
}

/// The distinct owner group ids, ascending (sort + dedup).
pub fn sorted_unique(ids: &[i64]) -> (r: Vec<i64>)
    ensures
        sorted_strict(r@),
        forall|x: i64| r@.contains(x) <==> ids@.contains(x),
{
    let mut out: Vec<i64> = Vec::new();
    let mut i: usize = 0;
    while i < ids.len()
        invariant
            i <= ids@.len(),
            sorted_strict(out@),
            forall|x: i64| out@.contains(x) <==> ids@.take(i as int).contains(x),
        decreases ids@.len() - i,
    {
        let x = ids[i];
        let mut p: usize = 0;
        while p < out.len() && out[p] < x
            invariant
                p <= out@.len(),
                forall|q: int| 0 <= q < p ==> out@[q] < x,
            decreases out@.len() - p,
        {
            p = p + 1;
        }
        proof {
            assert(ids@.take(i + 1) =~= ids@.take(i as int).push(x));
        }
        if p < out.len() && out[p] == x {
            proof {
                assert forall|y: i64| out@.contains(y) <==> ids@.take(i + 1).contains(y) by {
                    if y == x {
                        assert(out@[p as int] == x);
                        assert(ids@.take(i + 1)[i as int] == x);
                    }
                    if ids@.take(i + 1).contains(y) && y != x {
                        let k = choose|k: int| 0 <= k < i + 1 && #[trigger] ids@.take(i + 1)[k] == y;
                        assert(ids@.take(i as int)[k] == y);
                    }
                    if ids@.take(i as int).contains(y) {
                        let k = choose|k: int| 0 <= k < i && #[trigger] ids@.take(i as int)[k] == y;
                        assert(ids@.take(i + 1)[k] == y);
                    }
                }
            }
        } else {
            let ghost before = out@;
            out.insert(p, x);
            proof {
                assert(out@ =~= before.insert(p as int, x));
                assert forall|a: int, b: int| 0 <= a < b < out@.len() implies out@[a] < out@[b] by {
                    if b < p {
                    } else if b == p {
                    } else if a < p {
                        assert(out@[b] == before[b - 1]);
                        if p < before.len() {
                            assert(before[p as int] > x);
                        }
                    } else if a == p {
                        assert(out@[b] == before[b - 1]);
                        assert(before[p as int] > x);
                        if b - 1 > p {
                            assert(before[p as int] < before[b - 1]);
                        }
                    } else {
                        assert(out@[a] == before[a - 1]);
                        assert(out@[b] == before[b - 1]);
                    }
                }
                assert forall|y: i64| out@.contains(y) <==> ids@.take(i + 1).contains(y) by {
                    if y == x {
                        assert(out@[p as int] == x);
                        assert(ids@.take(i + 1)[i as int] == x);
                    }
                    if out@.contains(y) && y != x {
                        let k = choose|k: int| 0 <= k < out@.len() && #[trigger] out@[k] == y;
                        if k < p {
                            assert(before[k] == y);
                        } else {
                            assert(before[k - 1] == y);
                        }
                        assert(before.contains(y));
                    }
                    if before.contains(y) {
                        let k = choose|k: int| 0 <= k < before.len() && #[trigger] before[k] == y;
                        if k < p {
                            assert(out@[k] == y);
                        } else {
                            assert(out@[k + 1] == y);
                        }
                    }
                    if ids@.take(i + 1).contains(y) && y != x {
                        let k = choose|k: int| 0 <= k < i + 1 && #[trigger] ids@.take(i + 1)[k] == y;
                        assert(ids@.take(i as int)[k] == y);
                    }
                    if ids@.take(i as int).contains(y) {
                        let k = choose|k: int| 0 <= k < i && #[trigger] ids@.take(i as int)[k] == y;
                        assert(ids@.take(i + 1)[k] == y);
                    }
                }
            }
        }
        i = i + 1;
    }
    assert(ids@.take(ids@.len() as int) =~= ids@);
    out
}

/// The core session mode: the auto strategy group runs "strategy";
/// otherwise "direct" and "rule" pass and anything else means "global".
pub open spec fn session_mode_spec(mode: Seq<char>, auto_strategy: bool) -> Seq<char> {
    if auto_strategy {
        "strategy"@
    } else if mode == "direct"@ {
        "direct"@
    } else if mode == "rule"@ {
        "rule"@
    } else {
        "global"@
    }
}

pub fn session_mode(mode: &str, auto_strategy: bool) -> (r: &'static str)
    ensures
        r@ == session_mode_spec(mode@, auto_strategy),
{
    if auto_strategy {
        return "strategy";
    }
    let s = to_chars(mode);
    assert(s@.subrange(0, s@.len() as int) =~= s@);
    if range_eq(&s, 0, s.len(), "direct") {
        "direct"
    } else if range_eq(&s, 0, s.len(), "rule") {
        "rule"
    } else {
        "global"
    }
}

/// The node a session selects: the preferred id when the group holds it,
/// else the group's first node.
pub fn pick_selected(ids: &[String], preferred: Option<&str>) -> (r: String)
    requires
        ids@.len() > 0,
    ensures
        preferred is None ==> r@ == ids@[0]@,
        preferred is Some && (exists|i: int|
            0 <= i < ids@.len() && #[trigger] ids@[i]@ == preferred->Some_0@) ==> r@
            == preferred->Some_0@,
        preferred is Some && !(exists|i: int|
            0 <= i < ids@.len() && #[trigger] ids@[i]@ == preferred->Some_0@) ==> r@ == ids@[0]@,
{
    if let Some(p) = preferred {
        let ps = owned(p);
        let mut i: usize = 0;
        while i < ids.len()
            invariant
                i <= ids@.len(),
                ps@ == p@,
                preferred == Some(p),
                forall|j: int| 0 <= j < i ==> #[trigger] ids@[j]@ != p@,
            decreases ids@.len() - i,
        {
            if ids[i] == ps {
                let r = ids[i].clone();
                assert(ids@[i as int]@ == p@);
                assert(r@ == p@);
                assert(exists|j: int| 0 <= j < ids@.len() && #[trigger] ids@[j]@ == p@);
                return r;
            }
            i = i + 1;
        }
    }
    ids[0].clone()
}

/// Which group a session runs, given the selection stored for the shown
/// group: a selected `strat:<gid>` pseudo-node runs strategy group `gid`
/// (second component) instead of the shown group.
pub fn session_source(group_id: i64, selected: Option<&str>) -> (r: (i64, Option<i64>))
    ensures
        r.1 == (match selected {
            Some(s) => strat_id_spec(s@),
            None => None,
        }),
        r.0 == (match r.1 {
            Some(g) => g,
            None => group_id,
        }),
{
    let strat = match selected {
        Some(s) => strat_id(s),
        None => None,
    };
    match strat {
        Some(g) => (g, Some(g)),
        None => (group_id, None),
    }
}

/// The nodes a session may run: all of them, or, with the IPv6 filter on,
/// those whose server is not an IPv6 literal (unparsable ones stay).
pub open spec fn usable_nodes(nodes: Seq<Node>, filter_v6: bool) -> Seq<Node>
    decreases nodes.len(),
{
    if nodes.len() == 0 {
        seq![]
    } else {
        let rest = usable_nodes(nodes.drop_last(), filter_v6);
        if filter_v6 && server_is_ipv6(nodes.last().out@) {
            rest
        } else {
            rest.push(nodes.last())
        }
    }
}

/// Of `nodes`, those whose outbound JSON parses, in order.
pub open spec fn parsable_nodes(nodes: Seq<Node>) -> Seq<Node>
    decreases nodes.len(),
{
    if nodes.len() == 0 {
        seq![]
    } else {
        let rest = parsable_nodes(nodes.drop_last());
        if json::json_error(nodes.last().out@) is None {
            rest.push(nodes.last())
        } else {
            rest
        }
    }
}

/// Whether some node has id `id`.
pub open spec fn holds_id(nodes: Seq<Node>, id: Seq<char>) -> bool {
    exists|i: int| 0 <= i < nodes.len() && #[trigger] nodes[i].id@ == id
}

/// The node id a session selects: the preferred one when the nodes hold
/// it, else the first node's.
pub open spec fn pick_spec(nodes: Seq<Node>, preferred: Option<Seq<char>>) -> Seq<char> {
    match preferred {
        Some(p) => if holds_id(nodes, p) {
            p
        } else {
            nodes[0].id@
        },
        None => nodes[0].id@,
    }
}

/// What a session runs: its mode, the selected node id ("auto" for an
/// automatic strategy group), the usable nodes, of those the ones whose
/// outbound JSON parses (the session entries), and the custom route
/// (final outbound, rules JSON) of rule mode.
pub struct SessionPlan {
    pub mode: String,
    pub selected: String,
    pub nodes: Vec<Node>,
    pub entries: Vec<Node>,
    pub route: Option<(String, String)>,
}

fn usable(nodes: &[Node], filter_v6: bool) -> (r: (Vec<Node>, Vec<Node>))
    ensures
        r.0@ == usable_nodes(nodes@, filter_v6),
        r.1@ == parsable_nodes(usable_nodes(nodes@, filter_v6)),
{
    let mut kept: Vec<Node> = Vec::new();
    let mut parsed: Vec<Node> = Vec::new();
    let mut i: usize = 0;
    while i < nodes.len()
        invariant
            i <= nodes@.len(),
            kept@ == usable_nodes(nodes@.take(i as int), filter_v6),
            parsed@ == parsable_nodes(kept@),
        decreases nodes@.len() - i,
    {
        proof {
            assert(nodes@.take(i + 1).drop_last() =~= nodes@.take(i as int));
            assert(nodes@.take(i + 1).last() == nodes@[i as int]);
        }
        if !filter_v6 || !is_ipv6_server(nodes[i].out.as_str()) {
            let ghost before = kept@;
            kept.push(nodes[i].duplicate());
            proof {
                assert(kept@.drop_last() =~= before);
            }
            if json::parse_error(nodes[i].out.as_str()).is_none() {
                parsed.push(nodes[i].duplicate());
            }
        }
        i = i + 1;
    }
    assert(nodes@.take(nodes@.len() as int) =~= nodes@);
    (kept, parsed)
}

/// The decisions of building a session for a group whose source nodes are
/// `nodes`: with no node, or none left by the IPv6 filter, there is nothing
/// to run; rule mode needs the CN rule sets; an automatic strategy group
/// selects "auto", any other session the preferred node when present,
/// else the first one. In rule mode the active routing profile
/// (`(final outbound, rules JSON)`, when one is set and still exists)
/// replaces the built-in rules; rules that no longer parse are an error.
pub fn plan_session(
    nodes: &[Node],
    filter_v6: bool,
    preferred: Option<&str>,
    auto_strategy: bool,
    mode: &str,
    has_rule_assets: bool,
    profile: Option<(&str, &str)>,
) -> (r: Result<SessionPlan, String>)
    ensures
        ({
            let kept = usable_nodes(nodes@, filter_v6);
            let m = session_mode_spec(mode@, auto_strategy);
            if nodes@.len() == 0 {
                r is Err && r->Err_0@ == "当前分组没有节点"@
            } else if kept.len() == 0 {
                r is Err && r->Err_0@ == "开启「过滤 IPv6 节点」后该分组没有可用节点"@
            } else if m == "rule"@ && !has_rule_assets {
                r is Err && r->Err_0@ == "规则模式需要 CN 规则集，请重试以触发下载"@
            } else if m == "rule"@ && profile is Some && json::json_error(profile->Some_0.1@) is Some {
                r is Err && r->Err_0@ == "路由档案规则数据损坏"@
            } else {
                &&& r is Ok
                &&& r->Ok_0.mode@ == m
                &&& match r->Ok_0.route {
                    Some(rt) => m == "rule"@ && profile is Some && rt.0@ == profile->Some_0.0@ && rt.1@
                        == profile->Some_0.1@,
                    None => !(m == "rule"@ && profile is Some),
                }
                &&& r->Ok_0.nodes@ == kept
                &&& r->Ok_0.entries@ == parsable_nodes(kept)
                &&& r->Ok_0.selected@ == (if auto_strategy {
                    "auto"@
                } else {
                    pick_spec(
                        kept,
                        match preferred {
                            Some(p) => Some(p@),
                            None => None,
                        },
                    )
                })
            }
        }),
{
    if nodes.len() == 0 {
        return Err(owned("当前分组没有节点"));
    }
    let (kept, entries) = usable(nodes, filter_v6);
    if kept.len() == 0 {
        return Err(owned("开启「过滤 IPv6 节点」后该分组没有可用节点"));
    }
    let m = session_mode(mode, auto_strategy);
    let mc = to_chars(m);
    assert(mc@.subrange(0, mc@.len() as int) =~= mc@);
    let is_rule = range_eq(&mc, 0, mc.len(), "rule");
    if is_rule && !has_rule_assets {
        return Err(owned("规则模式需要 CN 规则集，请重试以触发下载"));
    }
    let route = match profile {
        Some((f, rules)) => {
            if is_rule {
                if json::parse_error(rules).is_some() {
                    return Err(owned("路由档案规则数据损坏"));
                }
                Some((owned(f), owned(rules)))
            } else {
                None
            }
        },
        None => None,
    };
    let selected = if auto_strategy {
        owned("auto")
    } else {
        pick_node(&kept, preferred)
    };
    Ok(SessionPlan { mode: owned(m), selected, nodes: kept, entries, route })
}

fn pick_node(nodes: &[Node], preferred: Option<&str>) -> (r: String)
    requires
        nodes@.len() > 0,
    ensures
        r@ == pick_spec(
            nodes@,
            match preferred {
                Some(p) => Some(p@),
                None => None,
            },
        ),
{
    if let Some(p) = preferred {
        let ps = owned(p);
        let mut i: usize = 0;
        while i < nodes.len()
            invariant
                i <= nodes@.len(),
                ps@ == p@,
                preferred == Some(p),
                forall|j: int| 0 <= j < i ==> #[trigger] nodes@[j].id@ != p@,
            decreases nodes@.len() - i,
        {
            if nodes[i].id == ps {
                assert(holds_id(nodes@, p@));
                return nodes[i].id.clone();
            }
            i = i + 1;
        }
    }
    nodes[0].id.clone()
}

/// The nodes a latency test probes: those asked for (all when `ids` is
/// `None`) whose outbound JSON parses and, with the IPv6 filter on, whose
/// server is not an IPv6 literal.
pub open spec fn measurable(nodes: Seq<Node>, ids: Option<Seq<Seq<char>>>, filter_v6: bool) -> Seq<Node>
    decreases nodes.len(),
{
    if nodes.len() == 0 {
        seq![]
    } else {
        let rest = measurable(nodes.drop_last(), ids, filter_v6);
        let n = nodes.last();
        let asked = match ids {
            Some(v) => v.contains(n.id@),
            None => true,
        };
        if asked && json::json_error(n.out@) is None && !(filter_v6 && server_is_ipv6(n.out@)) {
            rest.push(n)
        } else {
            rest
        }
    }
}

fn asked_for(ids: &[String], id: &String) -> (r: bool)
    ensures
        r == crate::text::views(ids@).contains(id@),
{
    let mut i: usize = 0;
    while i < ids.len()
        invariant
            i <= ids@.len(),
            forall|j: int| 0 <= j < i ==> #[trigger] ids@[j]@ != id@,
        decreases ids@.len() - i,
    {
        if ids[i] == *id {
            assert(crate::text::views(ids@)[i as int] == id@);
            return true;
        }
        i = i + 1;
    }
    assert forall|j: int| 0 <= j < ids@.len() implies crate::text::views(ids@)[j] != id@ by {
        assert(crate::text::views(ids@)[j] == ids@[j]@);
    }
    false
}

/// The entries of a latency test; an empty selection is an error.
pub fn measurable_entries(nodes: &[Node], ids: Option<&[String]>, filter_v6: bool) -> (r: Result<
    Vec<Node>,
    String,
>)
    ensures
        ({
            let m = measurable(
                nodes@,
                match ids {
                    Some(v) => Some(crate::text::views(v@)),
                    None => None,
                },
                filter_v6,
            );
            if m.len() == 0 {
                r is Err && r->Err_0@ == "没有可测速的节点"@
            } else {
                r is Ok && r->Ok_0@ == m
            }
        }),
{
    let ghost vids = match ids {
        Some(v) => Some(crate::text::views(v@)),
        None => None,
    };
    let mut out: Vec<Node> = Vec::new();
    let mut i: usize = 0;
    while i < nodes.len()
        invariant
            i <= nodes@.len(),
            vids == (match ids {
                Some(v) => Some(crate::text::views(v@)),
                None => None,
            }),
            out@ == measurable(nodes@.take(i as int), vids, filter_v6),
        decreases nodes@.len() - i,
    {
        proof {
            assert(nodes@.take(i + 1).drop_last() =~= nodes@.take(i as int));
            assert(nodes@.take(i + 1).last() == nodes@[i as int]);
        }
        let asked = match ids {
            Some(v) => asked_for(v, &nodes[i].id),
            None => true,
        };
        if asked && json::parse_error(nodes[i].out.as_str()).is_none() && !(filter_v6
            && is_ipv6_server(nodes[i].out.as_str())) {
            out.push(nodes[i].duplicate());
        }
        i = i + 1;
    }
    assert(nodes@.take(nodes@.len() as int) =~= nodes@);
    if out.len() == 0 {
        return Err(owned("没有可测速的节点"));
    }
    Ok(out)
}

/// One poll of a running batch probe. `acc` holds the rows reported so
/// far; the poll either found the run (with its rows so far and whether it
/// is done) or not yet. Returns the rows to report if the batch ends now
/// and whether it ends: a finished run ends with its final rows; otherwise
/// the newest rows are kept and the batch ends once the deadline passed.
pub fn batch_poll_step(
    acc: Vec<UrlTestRow>,
    found: bool,
    done: bool,
    results: Vec<UrlTestRow>,
    past_deadline: bool,
) -> (r: (Vec<UrlTestRow>, bool))
    ensures
        found && done ==> r.0@ == results@ && r.1,
        found && !done ==> r.0@ == results@ && r.1 == past_deadline,
        !found ==> r.0@ == acc@ && r.1 == past_deadline,
{
    if found {
        if done {
            (results, true)
        } else {
            (results, past_deadline)
        }
    } else {
        (acc, past_deadline)
    }
}

/// The group a measured node id is stored under: that of the last entry
/// with this id.
pub open spec fn owner_of(entries: Seq<Node>, id: Seq<char>) -> Option<i64>
    decreases entries.len(),
{
    if entries.len() == 0 {
        None
    } else if entries.last().id@ == id {
        Some(entries.last().group_id)
    } else {
        owner_of(entries.drop_last(), id)
    }
}

/// For each result row, the group its latency is stored under (`None`: the
/// row names no probed entry and is not stored).
pub fn latency_owners(entries: &[Node], rows: &[UrlTestRow]) -> (r: Vec<Option<i64>>)
    ensures
        r@.len() == rows@.len(),
        forall|i: int| 0 <= i < rows@.len() ==> #[trigger] r@[i] == owner_of(entries@, rows@[i].id@),
{
    let mut out: Vec<Option<i64>> = Vec::new();
    let mut i: usize = 0;
    while i < rows.len()
        invariant
            i <= rows@.len(),
            out@.len() == i,
            forall|k: int| 0 <= k < i ==> #[trigger] out@[k] == owner_of(entries@, rows@[k].id@),
        decreases rows@.len() - i,
    {
        let mut g: Option<i64> = None;
        let mut j: usize = 0;
        while j < entries.len()
            invariant
                j <= entries@.len(),
                i < rows@.len(),
                g == owner_of(entries@.take(j as int), rows@[i as int].id@),
            decreases entries@.len() - j,
        {
            proof {
                assert(entries@.take(j + 1).drop_last() =~= entries@.take(j as int));
                assert(entries@.take(j + 1).last() == entries@[j as int]);
            }
            if entries[j].id == rows[i].id {
                g = Some(entries[j].group_id);
            }
            j = j + 1;
        }
        assert(entries@.take(entries@.len() as int) =~= entries@);
        out.push(g);
        i = i + 1;
    }
    out
}

/// The result of measuring one node: the first returned row, or an error
/// row when the probe returned none.
pub fn single_result(rows: Vec<UrlTestRow>, node_id: String) -> (r: UrlTestRow)
    ensures
        rows@.len() > 0 ==> r == rows@[0],
        rows@.len() == 0 ==> r.id == node_id && r.delay_ms is None && r.error is Some
            && r.error->Some_0@ == "没有返回结果"@,
{
    let mut rows = rows;
    if rows.len() > 0 {
        rows.remove(0)
    } else {
        UrlTestRow { id: node_id, delay_ms: None, error: Some(owned("没有返回结果")) }
    }
}

/// Whether some pair has key `k`.
pub open spec fn has_key(pairs: Seq<(Seq<char>, Seq<char>)>, k: Seq<char>) -> bool {
    exists|i: int| 0 <= i < pairs.len() && #[trigger] pairs[i].0 == k
}

/// A subscription's request headers: the extra headers, after a
/// `User-Agent` from the dedicated column unless that is empty or an extra
/// header of the same name replaces it.
pub open spec fn group_headers_spec(ua: Option<Seq<char>>, extras: Seq<(Seq<char>, Seq<char>)>) -> Seq<
    (Seq<char>, Seq<char>),
> {
    match ua {
        Some(u) => if u.len() > 0 && !has_key(extras, "User-Agent"@) {
            seq![("User-Agent"@, u)] + extras
        } else {
            extras
        },
        None => extras,
    }
}

/// The extra headers stored for a group: its JSON map when that parses,
/// else none.
pub open spec fn stored_extras(extra: Option<Seq<char>>) -> Seq<(Seq<char>, Seq<char>)> {
    match extra {
        Some(t) => match json::json_string_map(t) {
            Some(m) => m,
            None => seq![],
        },
        None => seq![],
    }
}

pub open spec fn opt_string_view(o: Option<String>) -> Option<Seq<char>> {
    match o {
        Some(s) => Some(s@),
        None => None,
    }
}

fn has_key_exec(pairs: &[(String, String)], k: &str) -> (r: bool)
    ensures
        r == has_key(json::pair_views(pairs@), k@),
{
    let ks = owned(k);
    let mut i: usize = 0;
    while i < pairs.len()
        invariant
            i <= pairs@.len(),
            ks@ == k@,
            forall|j: int| 0 <= j < i ==> #[trigger] pairs@[j].0@ != k@,
        decreases pairs@.len() - i,
    {
        if pairs[i].0 == ks {
            assert(json::pair_views(pairs@)[i as int].0 == k@);
            return true;
        }
        i = i + 1;
    }
    assert forall|j: int| 0 <= j < pairs@.len() implies #[trigger] json::pair_views(pairs@)[j].0 != k@ by {
        assert(json::pair_views(pairs@)[j] == (pairs@[j].0@, pairs@[j].1@));
    }
    false
}

/// URL and request headers for refreshing a subscription group.
pub fn group_fetch(g: Option<&Group>) -> (r: Result<(String, Vec<(String, String)>), String>)
    ensures
        g is None ==> r is Err && r->Err_0@ == "分组不存在"@,
        g is Some && g->Some_0.sub_url is None ==> r is Err && r->Err_0@
            == "该分组不是订阅组（没有订阅 URL）"@,
        g is Some && g->Some_0.sub_url is Some ==> r is Ok && r->Ok_0.0@ == g->Some_0.sub_url->Some_0@
            && json::pair_views(r->Ok_0.1@) == group_headers_spec(
            opt_string_view(g->Some_0.user_agent),
            stored_extras(opt_string_view(g->Some_0.extra_headers)),
        ),
{
    let g = match g {
        Some(g) => g,
        None => {
            return Err(owned("分组不存在"));
        },
    };
    let url = match &g.sub_url {
        Some(u) => u.clone(),
        None => {
            return Err(owned("该分组不是订阅组（没有订阅 URL）"));
        },
    };
    let extras: Vec<(String, String)> = match &g.extra_headers {
        Some(t) => match json::string_map(t.as_str()) {
            Some(m) => m,
            None => Vec::new(),
        },
        None => Vec::new(),
    };
    assert(json::pair_views(extras@) == stored_extras(opt_string_view(g.extra_headers)));
    let mut headers: Vec<(String, String)> = Vec::new();
    let add_ua = match &g.user_agent {
        Some(u) => u.unicode_len() > 0 && !has_key_exec(&extras, "User-Agent"),
        None => false,
    };
    if add_ua {
        let u = g.user_agent.clone().unwrap();
        headers.push((owned("User-Agent"), u));
    }
    let ghost first = headers@;
    let mut i: usize = 0;
    while i < extras.len()
        invariant
            i <= extras@.len(),
            first == headers@.take(first.len() as int),
            headers@.len() == first.len() + i,
            json::pair_views(headers@) == json::pair_views(first) + json::pair_views(extras@.take(i as int)),
        decreases extras@.len() - i,
    {
        let ghost before = headers@;
        headers.push((extras[i].0.clone(), extras[i].1.clone()));
        proof {
            assert(extras@.take(i + 1) =~= extras@.take(i as int).push(extras@[i as int]));
            assert(json::pair_views(headers@) =~= json::pair_views(before).push(
                (extras@[i as int].0@, extras@[i as int].1@),
            ));
            assert(json::pair_views(extras@.take(i + 1)) =~= json::pair_views(extras@.take(i as int)).push(
                (extras@[i as int].0@, extras@[i as int].1@),
            ));
            assert(headers@.take(first.len() as int) =~= before.take(first.len() as int));
        }
        i = i + 1;
    }
    proof {
        assert(extras@.take(extras@.len() as int) =~= extras@);
        reveal_strlit("User-Agent");
        if add_ua {
            assert(json::pair_views(first) =~= seq![("User-Agent"@, g.user_agent->Some_0@)]);
        } else {
            assert(json::pair_views(first) =~= Seq::<(Seq<char>, Seq<char>)>::empty());
        }
    }
    Ok((url, headers))
}

/// Splits the headers of a new subscription into the `User-Agent` column
/// (dropped when blank) and the other, extra headers. Header names are
/// distinct, as in the map the UI sends.
pub fn split_user_agent(headers: &[(String, String)]) -> (r: (Option<String>, Vec<(String, String)>))
    ensures
        json::pair_views(r.1@) == json::pair_views(headers@).filter(
            |p: (Seq<char>, Seq<char>)| p.0 != "User-Agent"@,
        ),
        match r.0 {
            Some(u) => exists|i: int|
                0 <= i < headers@.len() && #[trigger] headers@[i].0@ == "User-Agent"@ && headers@[i].1@
                    == u@ && trim(u@).len() > 0 && forall|j: int|
                    0 <= j < i ==> #[trigger] headers@[j].0@ != "User-Agent"@,
            None => forall|i: int|
                0 <= i < headers@.len() && #[trigger] headers@[i].0@ == "User-Agent"@ ==> trim(
                    headers@[i].1@,
                ).len() == 0 || exists|j: int| 0 <= j < i && #[trigger] headers@[j].0@ == "User-Agent"@,
        },
{
    let ua_name = owned("User-Agent");
    let mut ua: Option<String> = None;
    let mut seen = false;
    let mut extras: Vec<(String, String)> = Vec::new();
    let mut i: usize = 0;
    while i < headers.len()
        invariant
            i <= headers@.len(),
            ua_name@ == "User-Agent"@,
            seen == (exists|j: int| 0 <= j < i && #[trigger] headers@[j].0@ == "User-Agent"@),
            json::pair_views(extras@) == json::pair_views(headers@.take(i as int)).filter(
                |p: (Seq<char>, Seq<char>)| p.0 != "User-Agent"@,
            ),
            match ua {
                Some(u) => exists|k: int|
                    0 <= k < i && #[trigger] headers@[k].0@ == "User-Agent"@ && headers@[k].1@ == u@
                        && trim(u@).len() > 0 && forall|j: int|
                        0 <= j < k ==> #[trigger] headers@[j].0@ != "User-Agent"@,
                None => forall|k: int|
                    0 <= k < i && #[trigger] headers@[k].0@ == "User-Agent"@ ==> trim(headers@[k].1@).len()
                        == 0 || exists|j: int| 0 <= j < k && #[trigger] headers@[j].0@ == "User-Agent"@,
            },
        decreases headers@.len() - i,
    {
        let ghost before = extras@;
        proof {
            assert(headers@.take(i + 1) =~= headers@.take(i as int).push(headers@[i as int]));
            assert(json::pair_views(headers@.take(i + 1)) =~= json::pair_views(headers@.take(i as int)).push(
                (headers@[i as int].0@, headers@[i as int].1@),
            ));
            reveal_with_fuel(Seq::filter, 1);
            assert(json::pair_views(headers@.take(i + 1)).drop_last() =~= json::pair_views(
                headers@.take(i as int),
            ));
        }
        if headers[i].0 == ua_name {
            if !seen {
                let t = trimmed(headers[i].1.as_str());
                if t.unicode_len() > 0 {
                    ua = Some(headers[i].1.clone());
                }
            }
            seen = true;
        } else {
            extras.push((headers[i].0.clone(), headers[i].1.clone()));
            proof {
                assert(json::pair_views(extras@) =~= json::pair_views(before).push(
                    (headers@[i as int].0@, headers@[i as int].1@),
                ));
            }
        }
        i = i + 1;
    }
    assert(headers@.take(headers@.len() as int) =~= headers@);
    (ua, extras)
}

/// The pseudo-node row that lists strategy group `id` among its host
/// group's nodes: `strat:<id>`, the group's name marked ⚡ when automatic
/// and ◈ when manual, type "strategy" and an empty outbound.
pub fn strategy_row(id: i64, name: &str, kind: &str) -> (r: Node)
    ensures
        r.id@ == "strat:"@ + crate::text::signed_digits(id as int),
        r.group_id == id,
        r.node_type@ == "strategy"@,
        r.remark@ == name@ + " "@ + (if kind@ == "strategy"@ {
            "⚡"@
        } else {
            "◈"@
        }),
        r.out@ == "{}"@,
{
    let ks = to_chars(kind);
    assert(ks@.subrange(0, ks@.len() as int) =~= ks@);
    let mark = if range_eq(&ks, 0, ks.len(), "strategy") {
        "⚡"
    } else {
        "◈"
    };
    let remark = concat(concat(owned(name), " "), mark);
    Node {
        id: concat(owned("strat:"), crate::text::i64_to_string(id).as_str()),
        group_id: id,
        node_type: owned("strategy"),
        remark,
        out: owned("{}"),
    }
}

/// Validates a new strategy group: returns its trimmed name and its kind
/// ("strategy" when automatic, else "strategy-manual").
pub fn validate_strategy(name: &str, auto: bool, member_count: usize) -> (r: Result<(String, String), String>)
    ensures
        trim(name@).len() == 0 ==> r is Err && r->Err_0@ == "名称不能为空"@,
        trim(name@).len() > 0 && member_count == 0 ==> r is Err && r->Err_0@
            == "至少选择一个成员分组"@,
        trim(name@).len() > 0 && member_count > 0 ==> r is Ok && r->Ok_0.0@ == trim(name@) && r->Ok_0.1@
            == if auto {
            "strategy"@
        } else {
            "strategy-manual"@
        },
{
    let t = trimmed(name);
    if t.as_str().unicode_len() == 0 {
        return Err(owned("名称不能为空"));
    }
    if member_count == 0 {
        return Err(owned("至少选择一个成员分组"));
    }
    let kind = if auto {
        owned("strategy")
    } else {
        owned("strategy-manual")
    };
    Ok((t, kind))
}

/// `s` trimmed of surrounding whitespace.
pub fn trimmed(s: &str) -> (r: String)
    ensures
        r@ == trim(s@),
{
    let cs = to_chars(s);
    let (a, b) = trim_bounds(&cs, 0, cs.len());
    assert(cs@.subrange(0, cs@.len() as int) =~= cs@);
    let mut v: Vec<char> = Vec::new();
    let mut i = a;
    while i < b
        invariant
            a <= i <= b <= cs@.len(),
            v@ == cs@.subrange(a as int, i as int),
        decreases b - i,
    {
        v.push(cs[i]);
        i = i + 1;
        assert(v@ =~= cs@.subrange(a as int, i as int));
    }
    crate::text::from_chars(&v)
}

/// Validates a routing profile: returns its trimmed name.
pub fn validate_route_profile(name: &str, final_out: &str, rules_json: &str) -> (r: Result<String, String>)
    ensures
        trim(name@).len() == 0 ==> r is Err && r->Err_0@ == "请输入路由档案名称"@,
        trim(name@).len() > 0 && !(final_out@ == "proxy"@ || final_out@ == "direct"@ || final_out@
            == "block"@) ==> r is Err && r->Err_0@ == "兜底出口必须是 proxy / direct / block"@,
        trim(name@).len() > 0 && (final_out@ == "proxy"@ || final_out@ == "direct"@ || final_out@
            == "block"@) && !rules_valid_spec(rules_json@) ==> r is Err && r->Err_0@
            == "规则内容必须是 sing-box 路由规则对象数组"@,
        trim(name@).len() > 0 && (final_out@ == "proxy"@ || final_out@ == "direct"@ || final_out@
            == "block"@) && rules_valid_spec(rules_json@) ==> r is Ok && r->Ok_0@ == trim(name@),
{
    let t = trimmed(name);
    if t.as_str().unicode_len() == 0 {
        return Err(owned("请输入路由档案名称"));
    }
    if !route_final_valid(final_out) {
        return Err(owned("兜底出口必须是 proxy / direct / block"));
    }
    if !route_rules_valid(rules_json) {
        return Err(owned("规则内容必须是 sing-box 路由规则对象数组"));
    }
    Ok(t)
}

/// Copying needs two different groups.
pub fn check_copy_groups(source_group_id: i64, target_group_id: i64) -> (r: Result<(), String>)
    ensures
        source_group_id == target_group_id ==> r is Err && r->Err_0@ == "源与目标不能是同一分组"@,
        source_group_id != target_group_id ==> r is Ok,
{
    if source_group_id == target_group_id {
        return Err(owned("源与目标不能是同一分组"));
    }
    Ok(())
}

/// Enabling the system proxy needs a running core.
pub fn check_proxy_enable(enabled: bool, running: bool) -> (r: Result<(), String>)
    ensures
        enabled && !running ==> r is Err && r->Err_0@ == "内核未运行，无法开启系统代理（请先「启动」）"@,
        !(enabled && !running) ==> r is Ok,
{
    if enabled && !running {
        return Err(owned("内核未运行，无法开启系统代理（请先「启动」）"));
    }
    Ok(())
}

/// A free-text field as stored: trimmed, `None` when blank.
pub open spec fn opt_field(s: Seq<char>) -> Option<Seq<char>> {
    if trim(s).len() == 0 {
        None
    } else {
        Some(trim(s))
    }
}

pub fn normalize_field(s: &str) -> (r: Option<String>)
    ensures
        match r {
            Some(v) => opt_field(s@) == Some(v@),
            None => opt_field(s@) is None,
        },
{
    let t = trimmed(s);
    if t.as_str().unicode_len() == 0 {
        None
    } else {
        Some(t)
    }
}

/// Extra headers as stored: trimmed JSON, `None` when blank or `{}`.
pub fn normalize_extra_headers(s: &str) -> (r: Option<String>)
    ensures
        match r {
            Some(v) => trim(s@).len() > 0 && trim(s@) != "{}"@ && v@ == trim(s@),
            None => trim(s@).len() == 0 || trim(s@) == "{}"@,
        },
{
    let t = trimmed(s);
    let tc = to_chars(t.as_str());
    assert(tc@.subrange(0, tc@.len() as int) =~= tc@);
    if tc.len() == 0 || range_eq(&tc, 0, tc.len(), "{}") {
        None
    } else {
        Some(t)
    }
}

/// The new name of an edited subscription group: `None` keeps the current
/// one (default group, or a blank name).
pub fn edit_rename(group_id: i64, name: &str) -> (r: Option<String>)
    ensures
        group_id != crate::db::DEFAULT_GROUP_ID && trim(name@).len() > 0 ==> r is Some && r->Some_0@
            == trim(name@),
        !(group_id != crate::db::DEFAULT_GROUP_ID && trim(name@).len() > 0) ==> r is None,
{
    let t = trimmed(name);
    if group_id != crate::db::DEFAULT_GROUP_ID && t.as_str().unicode_len() > 0 {
        Some(t)
    } else {
        None
    }
}

/// The storage row of a parsed node.
pub open spec fn new_node_of(n: NodeMeta) -> NewNode {
    NewNode { id: n.id, node_type: n.node_type, remark: n.remark, out: n.out }
}

/// Storage rows for parsed nodes, in order.
pub fn to_new_nodes(nodes: &[NodeMeta]) -> (r: Vec<NewNode>)
    ensures
        r@ == nodes@.map_values(|n: NodeMeta| new_node_of(n)),
{
    let mut out: Vec<NewNode> = Vec::new();
    let mut i: usize = 0;
    while i < nodes.len()
        invariant
            i <= nodes@.len(),
            out@ == nodes@.take(i as int).map_values(|n: NodeMeta| new_node_of(n)),
        decreases nodes@.len() - i,
    {
        let n = nodes[i].duplicate();
        out.push(NewNode { id: n.id, node_type: n.node_type, remark: n.remark, out: n.out });
        i = i + 1;
        assert(out@ =~= nodes@.take(i as int).map_values(|n: NodeMeta| new_node_of(n)));
    }
    assert(nodes@.take(nodes@.len() as int) =~= nodes@);
    out
}

/// Nodes to persist when importing text into a group: the parsed nodes
/// after the IPv6 preference. Importing nothing is fine; having every
/// parsed node filtered away is an error.
pub fn import_nodes(parsed: &ImportResult, filter_ipv6: bool) -> (r: Result<Vec<NodeMeta>, String>)
    ensures
        ({
            let kept = if filter_ipv6 {
                kept_nodes(parsed.nodes@)
            } else {
                parsed.nodes@
            };
            if kept.len() == 0 && parsed.nodes@.len() > 0 {
                r is Err && r->Err_0@ == "「过滤 IPv6 节点」已开启：本次内容没有可用节点，未导入"@
            } else {
                r is Ok && r->Ok_0@ == kept
            }
        }),
{
    let kept = filter_nodes(&parsed.nodes, filter_ipv6);
    if kept.len() == 0 && parsed.nodes.len() > 0 {
        return Err(owned("「过滤 IPv6 节点」已开启：本次内容没有可用节点，未导入"));
    }
    Ok(kept)
}

/// The reason of the first parse error, or a placeholder.
pub fn first_reason(parsed: &ImportResult) -> (r: String)
    ensures
        parsed.errors@.len() > 0 ==> r@ == parsed.errors@[0].reason@,
        parsed.errors@.len() == 0 ==> r@ == "未知原因"@,
{
    if parsed.errors.len() > 0 {
        parsed.errors[0].reason.clone()
    } else {
        owned("未知原因")
    }
}

/// Nodes that replace a subscription group's nodes on refresh. A fetch
/// that parsed no node, or whose nodes the IPv6 preference removes
/// entirely, leaves the group untouched (an error).
pub fn refresh_nodes(parsed: &ImportResult, filter_ipv6: bool) -> (r: Result<Vec<NodeMeta>, String>)
    ensures
        parsed.nodes@.len() == 0 ==> r is Err && r->Err_0@ == "抓取解析失败（0 节点 / "@
            + crate::subscribe::dec(parsed.errors@.len() as u64) + " 错误），现有节点未改动："@ + (
        if parsed.errors@.len() > 0 {
            parsed.errors@[0].reason@
        } else {
            "未知原因"@
        }),
        parsed.nodes@.len() > 0 ==> ({
            let kept = if filter_ipv6 {
                kept_nodes(parsed.nodes@)
            } else {
                parsed.nodes@
            };
            if kept.len() == 0 {
                r is Err && r->Err_0@ == "「过滤 IPv6 节点」已开启：该订阅更新后没有可用节点，现有节点未改动"@
            } else {
                r is Ok && r->Ok_0@ == kept
            }
        }),
{
    if parsed.nodes.len() == 0 {
        let m = concat(owned("抓取解析失败（0 节点 / "), u64_to_string(parsed.errors.len() as u64).as_str());
        let m = concat(m, " 错误），现有节点未改动：");
        return Err(concat(m, first_reason(parsed).as_str()));
    }
    let kept = filter_nodes(&parsed.nodes, filter_ipv6);
    if kept.len() == 0 {
        return Err(owned("「过滤 IPv6 节点」已开启：该订阅更新后没有可用节点，现有节点未改动"));
    }
    Ok(kept)
}

/// Nodes of a one-off subscription fetch. When the caller saves it as a
/// new group, a fetch without nodes, or whose nodes the IPv6 preference
/// removes entirely, creates nothing (an error); a preview never fails.
pub fn subscribe_nodes(parsed: &ImportResult, filter_ipv6: bool, save: bool) -> (r: Result<
    Vec<NodeMeta>,
    String,
>)
    ensures
        ({
            let kept = if filter_ipv6 {
                kept_nodes(parsed.nodes@)
            } else {
                parsed.nodes@
            };
            if save && parsed.nodes@.len() == 0 {
                r is Err && r->Err_0@ == "未能从该订阅解析出节点（"@ + crate::subscribe::dec(
                    parsed.errors@.len() as u64,
                ) + " 错误），未创建订阅："@ + (if parsed.errors@.len() > 0 {
                    parsed.errors@[0].reason@
                } else {
                    "未知原因"@
                })
            } else if save && kept.len() == 0 {
                r is Err && r->Err_0@ == "「过滤 IPv6 节点」已开启：该订阅没有可用节点，未创建订阅"@
            } else {
                r is Ok && r->Ok_0@ == kept
            }
        }),
{
    if save && parsed.nodes.len() == 0 {
        let m = concat(owned("未能从该订阅解析出节点（"), u64_to_string(parsed.errors.len() as u64).as_str());
        let m = concat(m, " 错误），未创建订阅：");
        return Err(concat(m, first_reason(parsed).as_str()));
    }
    let kept = filter_nodes(&parsed.nodes, filter_ipv6);
    if save && kept.len() == 0 {
        proof {
            assert(parsed.nodes@.len() > 0);
        }
        return Err(owned("「过滤 IPv6 节点」已开启：该订阅没有可用节点，未创建订阅"));
    }
    Ok(kept)
}


/// How close two tray activations must be to count as a double click.
pub const TRAY_DOUBLE_CLICK_NANOS: u64 = 400_000_000;

/// What the shell does to the main window after a tray activation.
#[derive(Clone, Copy, Debug, PartialEq, Eq)]
pub enum WindowAction {
    Show,
    Hide,
    /// Show once the double-click window has passed, unless a later
    /// activation superseded this one (its generation is no longer current).
    DeferShow(u64),
}

/// The generation that follows `g` (wrapping).
pub open spec fn next_generation(g: u64) -> u64 {
    if g == u64::MAX {
        0
    } else {
        (g + 1) as u64
    }
}

/// Whether an activation at `now` completes a double click begun at `last`.
pub open spec fn is_double_click(last: Option<u64>, now: u64) -> bool {
    last matches Some(t) && (if now >= t {
        now - t
    } else {
        0
    }) <= TRAY_DOUBLE_CLICK_NANOS
}

/// One tray activation: from the last activation time and generation, the
/// time `now` and whether the window is visible, the new time, the new
/// generation and the action on the window.
pub open spec fn tray_step(last: Option<u64>, generation: u64, now: u64, visible: bool) -> (
    Option<u64>,
    u64,
    WindowAction,
) {
    let g = next_generation(generation);
    let a = if is_double_click(last, now) {
        if visible {
            WindowAction::Hide
        } else {
            WindowAction::Show
        }
    } else if visible {
        WindowAction::Show
    } else {
        WindowAction::DeferShow(g)
    };
    (Some(now), g, a)
}

/// Timing of tray-icon activations (SNI hosts have no double-click event,
/// so clicks are timed here). Times are monotonic nanoseconds.
pub struct TrayClicks {
    last: Option<u64>,
    generation: u64,
}

impl TrayClicks {
    pub closed spec fn last_spec(&self) -> Option<u64> {
        self.last
    }

    pub closed spec fn generation_spec(&self) -> u64 {
        self.generation
    }

    pub fn new() -> (t: TrayClicks)
        ensures
            t.last_spec() is None,
            t.generation_spec() == 0,
    {
        TrayClicks { last: None, generation: 0 }
    }

    /// One primary activation at time `now`. A second activation within
    /// the double-click window toggles the window; a single one shows an
    /// already visible window at once, and a hidden one after the window.
    pub fn activate(&mut self, now: u64, visible: bool) -> (a: WindowAction)
        ensures
            (final(self).last_spec(), final(self).generation_spec(), a) == tray_step(
                old(self).last_spec(),
                old(self).generation_spec(),
                now,
                visible,
            ),
    {
        let is_double = match self.last {
            Some(t) => {
                let elapsed = if now >= t {
                    now - t
                } else {
                    0
                };
                elapsed <= TRAY_DOUBLE_CLICK_NANOS
            },
            None => false,
        };
        self.last = Some(now);
        self.generation = if self.generation == u64::MAX {
            0
        } else {
            self.generation + 1
        };
        if is_double {
            if visible {
                WindowAction::Hide
            } else {
                WindowAction::Show
            }
        } else if visible {
            WindowAction::Show
        } else {
            WindowAction::DeferShow(self.generation)
        }
    }

    /// Whether a deferred show of generation `generation` still applies.
    pub fn deferred_applies(&self, generation: u64) -> (r: bool)
        ensures
            r == (generation == self.generation_spec()),
    {
        self.generation == generation
    }
}

/// A partial settings update from the UI.
#[derive(Clone, Debug, Default)]
pub struct SettingsPatch {
    pub current_group_id: Option<i64>,
    pub port: Option<u16>,
    pub mode: Option<String>,
    pub proxy_enabled: Option<bool>,
    pub close_to_tray: Option<bool>,
    pub log_level: Option<String>,
    pub sort_by_delay: Option<bool>,
    pub filter_ipv6: Option<bool>,
    pub auto_update_subscriptions: Option<bool>,
    pub auto_update_minutes: Option<u32>,
    pub language: Option<String>,
    pub auto_start: Option<bool>,
}

/// The refresh interval as stored: clamped to five minutes .. one week.
pub open spec fn clamp_minutes(v: u32) -> u32 {
    if v < 5 {
        5
    } else if v > 10080 {
        10080
    } else {
        v
    }
}

pub open spec fn patched<T>(old: T, p: Option<T>) -> T {
    match p {
        Some(v) => v,
        None => old,
    }
}

/// Applies a settings patch: every field present replaces the stored one
/// (the refresh interval clamped); absent fields are kept.
pub fn apply_patch(s: &mut crate::db::Settings, patch: SettingsPatch)
    ensures
        final(s).current_group_id == patched(old(s).current_group_id, patch.current_group_id),
        final(s).port == patched(old(s).port, patch.port),
        final(s).mode == patched(old(s).mode, patch.mode),
        final(s).proxy_enabled == patched(old(s).proxy_enabled, patch.proxy_enabled),
        final(s).close_to_tray == patched(old(s).close_to_tray, patch.close_to_tray),
        final(s).log_level == patched(old(s).log_level, patch.log_level),
        final(s).sort_by_delay == patched(old(s).sort_by_delay, patch.sort_by_delay),
        final(s).filter_ipv6 == patched(old(s).filter_ipv6, patch.filter_ipv6),
        final(s).auto_update_subscriptions == patched(
            old(s).auto_update_subscriptions,
            patch.auto_update_subscriptions,
        ),
        final(s).auto_update_minutes == match patch.auto_update_minutes {
            Some(v) => clamp_minutes(v),
            None => old(s).auto_update_minutes,
        },
        final(s).language == patched(old(s).language, patch.language),
        final(s).auto_start == patched(old(s).auto_start, patch.auto_start),
        final(s).selected_by_group == old(s).selected_by_group,
        final(s).route_profile_id == old(s).route_profile_id,
{
    s.current_group_id = pick(s.current_group_id, patch.current_group_id);
    s.port = pick(s.port, patch.port);
    s.mode = pick(s.mode.clone(), patch.mode);
    s.proxy_enabled = pick(s.proxy_enabled, patch.proxy_enabled);
    s.close_to_tray = pick(s.close_to_tray, patch.close_to_tray);
    s.log_level = pick(s.log_level.clone(), patch.log_level);
    s.sort_by_delay = pick(s.sort_by_delay, patch.sort_by_delay);
    s.filter_ipv6 = pick(s.filter_ipv6, patch.filter_ipv6);
    s.auto_update_subscriptions = pick(s.auto_update_subscriptions, patch.auto_update_subscriptions);
    let m = match patch.auto_update_minutes {
        Some(v) => Some(
            if v < 5 {
                5
            } else if v > 10080 {
                10080
            } else {
                v
            },
        ),
        None => None,
    };
    s.auto_update_minutes = pick(s.auto_update_minutes, m);
    s.language = pick(s.language.clone(), patch.language);
    s.auto_start = pick(s.auto_start, patch.auto_start);
}

/// The autostart entry change a settings update calls for: `Some(on)`
/// when the switch moved to `on`, `None` when it stayed.
pub fn autostart_action(prev: bool, next: bool) -> (r: Option<bool>)
    ensures
        prev != next ==> r == Some(next),
        prev == next ==> r is None,
{
    if prev != next {
        Some(next)
    } else {
        None
    }
}

/// Error of a settings update whose autostart change failed with `err`.
pub fn autostart_error(err: &str) -> (r: String)
    ensures
        r@ == "开机自启: "@ + err@,
{
    concat(owned("开机自启: "), err)
}

/// The patch value when present, else the old one.
fn pick<T>(old: T, p: Option<T>) -> (r: T)
    ensures
        r == patched(old, p),
{
    match p {
        Some(v) => v,
        None => old,
    }
}

/// Remembers `node_id` as the current node of `group_id`.
pub fn set_current(s: &mut crate::db::Settings, group_id: i64, node_id: String)
    ensures
        final(s).selected_by_group@ == old(s).selected_by_group@.insert(group_id, node_id),
        final(s).current_group_id == old(s).current_group_id,
        final(s).port == old(s).port,
        final(s).mode == old(s).mode,
        final(s).proxy_enabled == old(s).proxy_enabled,
        final(s).close_to_tray == old(s).close_to_tray,
        final(s).log_level == old(s).log_level,
        final(s).sort_by_delay == old(s).sort_by_delay,
        final(s).filter_ipv6 == old(s).filter_ipv6,
        final(s).auto_update_subscriptions == old(s).auto_update_subscriptions,
        final(s).auto_update_minutes == old(s).auto_update_minutes,
        final(s).language == old(s).language,
        final(s).auto_start == old(s).auto_start,
        final(s).route_profile_id == old(s).route_profile_id,
{
    broadcast use vstd::std_specs::hash::group_hash_axioms;

    s.selected_by_group.insert(group_id, node_id);
}

/// Makes `requested` the active routing profile (`None`: the built-in
/// rules); a profile id that does not exist (`exists` is false) is refused
/// and the settings stay as they were.
pub fn activate_profile(s: &mut crate::db::Settings, requested: Option<i64>, exists: bool) -> (r: Result<(), String>)
    ensures
        requested is Some && !exists ==> r is Err && r->Err_0@ == "路由档案不存在"@ && *final(s) == *old(s),
        !(requested is Some && !exists) ==> r is Ok && final(s).route_profile_id == requested && *final(s)
            == (crate::db::Settings { route_profile_id: requested, ..*old(s) }),
{
    if requested.is_some() && !exists {
        return Err(owned("路由档案不存在"));
    }
    s.route_profile_id = requested;
    Ok(())
}

/// After profile `deleted` is removed: the active profile falls back to
/// the built-in rules when it was the deleted one. Returns whether the
/// settings changed (and need saving).
pub fn forget_profile(s: &mut crate::db::Settings, deleted: i64) -> (changed: bool)
    ensures
        changed == (old(s).route_profile_id == Some(deleted)),
        changed ==> *final(s) == (crate::db::Settings { route_profile_id: None, ..*old(s) }),
        !changed ==> *final(s) == *old(s),
{
    if s.route_profile_id == Some(deleted) {
        s.route_profile_id = None;
        true
    } else {
        false
    }
}

/// Whether selecting `node_id` must first check that the node exists: a
/// `strat:` pseudo-node is a strategy group, not a stored node.
pub fn needs_node_check(node_id: &str) -> (r: bool)
    ensures
        r == !(node_id@.len() >= 6 && node_id@.take(6) == "strat:"@),
{
    let cs = to_chars(node_id);
    proof {
        if cs@.len() >= 6 {
            assert(cs@.subrange(0, 6) =~= cs@.take(6));
        }
    }
    !(cs.len() >= 6 && range_eq(&cs, 0, 6, "strat:"))
}

/// The last value shown in the UI for each node of a running batch probe.
pub struct ProgressLog {
    seen: Vec<(String, Option<i64>, Option<String>)>,
}

/// `(delay, error)` of a row, as compared for re-emission.
pub open spec fn row_value(r: UrlTestRow) -> (Option<i64>, Option<Seq<char>>) {
    (r.delay_ms, match r.error {
        Some(e) => Some(e@),
        None => None,
    })
}

pub open spec fn entry_value(e: (String, Option<i64>, Option<String>)) -> (Option<i64>, Option<Seq<char>>) {
    (e.1, match e.2 {
        Some(s) => Some(s@),
        None => None,
    })
}

impl ProgressLog {
    /// Last shown value per node id.
    pub closed spec fn shown(&self) -> Map<Seq<char>, (Option<i64>, Option<Seq<char>>)> {
        Map::new(
            |id: Seq<char>| exists|i: int| 0 <= i < self.seen@.len() && #[trigger] self.seen@[i].0@ == id,
            |id: Seq<char>| {
                let i = choose|i: int| 0 <= i < self.seen@.len() && #[trigger] self.seen@[i].0@ == id;
                entry_value(self.seen@[i])
            },
        )
    }

    pub closed spec fn wf(&self) -> bool {
        forall|i: int, j: int|
            0 <= i < j < self.seen@.len() ==> #[trigger] self.seen@[i].0@ != #[trigger] self.seen@[j].0@
    }

    pub fn new() -> (p: ProgressLog)
        ensures
            p.wf(),
            p.shown() == Map::<Seq<char>, (Option<i64>, Option<Seq<char>>)>::empty(),
    {
        let p = ProgressLog { seen: Vec::new() };
        assert(p.shown() =~= Map::<Seq<char>, (Option<i64>, Option<Seq<char>>)>::empty());
        p
    }

    /// Records a progress row: true when it must be pushed to the UI (its
    /// node shows for the first time, or its value changed, such as a
    /// retry replacing an error with a delay).
    pub fn observe(&mut self, row: &UrlTestRow) -> (emit: bool)
        requires
            old(self).wf(),
        ensures
            final(self).wf(),
            emit == !(old(self).shown().contains_key(row.id@) && old(self).shown()[row.id@] == row_value(
                *row,
            )),
            final(self).shown() == old(self).shown().insert(row.id@, row_value(*row)),
    {
        let n = self.seen.len();
        let mut i: usize = 0;
        while i < n
            invariant
                n == self.seen@.len(),
                i <= n,
                *self == *old(self),
                old(self).wf(),
                forall|j: int| 0 <= j < i ==> #[trigger] self.seen@[j].0@ != row.id@,
            decreases n - i,
        {
            if self.seen[i].0 == row.id {
                let same = self.seen[i].1 == row.delay_ms && match (&self.seen[i].2, &row.error) {
                    (Some(a), Some(b)) => *a == *b,
                    (None, None) => true,
                    _ => false,
                };
                let ghost before = *self;
                let e = (row.id.clone(), row.delay_ms, row.error.clone());
                self.seen.set(i, e);
                proof {
                    assert(before.shown().contains_key(row.id@));
                    let k = choose|k: int| 0 <= k < before.seen@.len() && #[trigger] before.seen@[k].0@
                        == row.id@;
                    assert(k == i);
                    assert(same == (entry_value(before.seen@[i as int]) == row_value(*row)));
                    assert forall|a: int, b: int| 0 <= a < b < self.seen@.len() implies #[trigger] self.seen@[a].0@
                        != #[trigger] self.seen@[b].0@ by {
                        if a != i && b != i {
                            assert(self.seen@[a] == before.seen@[a]);
                            assert(self.seen@[b] == before.seen@[b]);
                        } else if a == i {
                            assert(self.seen@[b] == before.seen@[b]);
                        } else {
                            assert(self.seen@[a] == before.seen@[a]);
                        }
                    }
                    assert forall|id: Seq<char>| #![auto] self.shown().contains_key(id) == before.shown().insert(
                        row.id@,
                        row_value(*row),
                    ).contains_key(id) by {
                        if before.shown().contains_key(id) && id != row.id@ {
                            let q = choose|q: int| 0 <= q < before.seen@.len() && #[trigger] before.seen@[q].0@
                                == id;
                            assert(self.seen@[q] == before.seen@[q]);
                        }
                        if self.shown().contains_key(id) && id != row.id@ {
                            let q = choose|q: int| 0 <= q < self.seen@.len() && #[trigger] self.seen@[q].0@ == id;
                            assert(self.seen@[q] == before.seen@[q]);
                        }
                        assert(self.seen@[i as int].0@ == row.id@);
                    }
                    assert forall|id: Seq<char>| #![auto] self.shown().contains_key(id) implies self.shown()[id]
                        == before.shown().insert(row.id@, row_value(*row))[id] by {
                        let q = choose|q: int| 0 <= q < self.seen@.len() && #[trigger] self.seen@[q].0@ == id;
                        if id == row.id@ {
                            assert(q == i);
                        } else {
                            assert(self.seen@[q] == before.seen@[q]);
                            let q2 = choose|q2: int| 0 <= q2 < before.seen@.len() && #[trigger] before.seen@[q2].0@
                                == id;
                            assert(q2 == q);
                        }
                    }
                    assert(self.shown() =~= before.shown().insert(row.id@, row_value(*row)));
                }
                return !same;
            }
            i = i + 1;
        }
        let ghost before = *self;
        self.seen.push((row.id.clone(), row.delay_ms, row.error.clone()));
        proof {
            assert(!before.shown().contains_key(row.id@));
            assert forall|a: int, b: int| 0 <= a < b < self.seen@.len() implies #[trigger] self.seen@[a].0@
                != #[trigger] self.seen@[b].0@ by {
                if b < n {
                    assert(self.seen@[a] == before.seen@[a]);
                    assert(self.seen@[b] == before.seen@[b]);
                } else {
                    assert(self.seen@[a] == before.seen@[a]);
                }
            }
            assert forall|id: Seq<char>| #![auto] self.shown().contains_key(id) == before.shown().insert(
                row.id@,
                row_value(*row),
            ).contains_key(id) by {
                if before.shown().contains_key(id) {
                    let q = choose|q: int| 0 <= q < before.seen@.len() && #[trigger] before.seen@[q].0@ == id;
                    assert(self.seen@[q] == before.seen@[q]);
                }
                if self.shown().contains_key(id) && id != row.id@ {
                    let q = choose|q: int| 0 <= q < self.seen@.len() && #[trigger] self.seen@[q].0@ == id;
                    assert(q < n);
                    assert(self.seen@[q] == before.seen@[q]);
                }
                assert(self.seen@[n as int].0@ == row.id@);
            }
            assert forall|id: Seq<char>| #![auto] self.shown().contains_key(id) implies self.shown()[id]
                == before.shown().insert(row.id@, row_value(*row))[id] by {
                let q = choose|q: int| 0 <= q < self.seen@.len() && #[trigger] self.seen@[q].0@ == id;
                if id == row.id@ {
                    assert(q == n);
                } else {
                    assert(q < n);
                    assert(self.seen@[q] == before.seen@[q]);
                    let q2 = choose|q2: int| 0 <= q2 < before.seen@.len() && #[trigger] before.seen@[q2].0@ == id;
                    assert(q2 == q);
                }
            }
            assert(self.shown() =~= before.shown().insert(row.id@, row_value(*row)));
        }
        true
    }
}

} // verus!
