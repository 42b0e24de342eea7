//! Properties of the library that span calls or hold of every input,
//! stated over the spec functions the operations' contracts use.

use vstd::prelude::*;
use crate::commands::{
    clamp_minutes, due_spec, min_delay, is_double_click, is_due, kept_nodes, server_is_ipv6, tray_step, WindowAction,
    TRAY_DOUBLE_CLICK_NANOS,
};
use crate::corectl::{respawn_spec, send_error_spec, NodeMeta, UrlTestRow};
use crate::db::{copy_plan_spec, has_id, Group, Node};
use crate::netaddr::{group_count, is_ipv6_literal, dcolon_idx};
use crate::runtime::{reap_candidates_spec, first_alpha, level_spec, log_entry_of, ring_push, ring_tail, strip_ansi_spec, LOG_CAP};
use crate::subscribe::{userinfo_fold, userinfo_spec, userinfo_step, zero_info, SubUserInfo};
use crate::subscribe::dec;
use crate::sysproxy::linux::{disable_calls, enable_calls, gvalue, lead_quotes, leftover_spec, trail_quotes, unquote};
use crate::text::{parse_i64_spec, decimal_digits, decimal_value, digit_char, digit_val, first_idx, lead_ws, parse_u64_spec, trail_ws, trim, all_digits, lemma_first_idx_bound};

verus! {

/// Stripping removes every escape character: no `ESC` survives.
pub proof fn law_strip_ansi_removes_escapes(s: Seq<char>)
    ensures
        !strip_ansi_spec(s).contains('\u{1b}'),
    decreases s.len(),
{
    if s.len() == 0 {
        return;
    }
    if s[0] == '\u{1b}' {
        if s.len() > 1 && s[1] == '[' {
            let rest = s.skip(2);
            let k = first_alpha(rest);
            if k < rest.len() {
                law_strip_ansi_removes_escapes(rest.skip(k + 1int));
            }
        } else {
            law_strip_ansi_removes_escapes(s.drop_first());
        }
    } else {
        law_strip_ansi_removes_escapes(s.drop_first());
        let r = strip_ansi_spec(s.drop_first());
        assert(strip_ansi_spec(s) == seq![s[0]] + r);
        if (seq![s[0]] + r).contains('\u{1b}') {
            let i = choose|i: int| 0 <= i < (seq![s[0]] + r).len() && (seq![s[0]] + r)[i] == '\u{1b}';
            if i > 0 {
                assert(r[i - 1] == '\u{1b}');
            }
        }
    }
}

/// Text without escape characters is left as it is.
pub proof fn law_strip_ansi_plain_unchanged(s: Seq<char>)
    requires
        !s.contains('\u{1b}'),
    ensures
        strip_ansi_spec(s) == s,
    decreases s.len(),
{
    if s.len() > 0 {
        assert(s[0] != '\u{1b}');
        assert(!s.drop_first().contains('\u{1b}')) by {
            if s.drop_first().contains('\u{1b}') {
                let i = choose|i: int| 0 <= i < s.drop_first().len() && s.drop_first()[i] == '\u{1b}';
                assert(s[i + 1] == '\u{1b}');
            }
        }
        law_strip_ansi_plain_unchanged(s.drop_first());
        assert(seq![s[0]] + s.drop_first() =~= s);
    }
}

/// Stripping twice is stripping once.
pub proof fn law_strip_ansi_idempotent(s: Seq<char>)
    ensures
        strip_ansi_spec(strip_ansi_spec(s)) == strip_ansi_spec(s),
{
    law_strip_ansi_removes_escapes(s);
    law_strip_ansi_plain_unchanged(strip_ansi_spec(s));
}

/// The userinfo parser is lenient: text without any `key=value` pair is an
/// all-zero row, never a rejection.
pub proof fn law_userinfo_without_pairs_is_zero(s: Seq<char>, info: SubUserInfo)
    requires
        !s.contains('='),
    ensures
        userinfo_fold(s, info) == Some(info),
    decreases s.len(),
{
    let j = first_idx(s, ';');
    lemma_first_idx_bound(s, ';');
    let piece = s.take(j as int);
    let p = trim(piece);
    let (a, b) = lemma_trim_range(piece);
    assert(!p.contains('=')) by {
        if p.contains('=') {
            let i = choose|i: int| 0 <= i < p.len() && p[i] == '=';
            assert(p[i] == piece[a + i]);
            assert(s[a + i] == '=');
        }
    }
    lemma_no_char_first_idx(p, '=');
    assert(userinfo_step(piece, info) == Some(info));
    if j < s.len() {
        let rest = s.skip(j + 1int);
        assert(!rest.contains('=')) by {
            if rest.contains('=') {
                let i = choose|i: int| 0 <= i < rest.len() && rest[i] == '=';
                assert(s[j + 1 + i] == '=');
            }
        }
        law_userinfo_without_pairs_is_zero(rest, info);
    }
}

/// `trim(s)` is a contiguous part of `s`.
proof fn lemma_trim_range(s: Seq<char>) -> (r: (int, int))
    ensures
        0 <= r.0 <= r.1 <= s.len(),
        trim(s) == s.subrange(r.0, r.1),
{
    crate::text::lemma_lead_ws(s);
    let a = lead_ws(s) as int;
    let t = s.skip(a);
    crate::text::lemma_trail_ws(t);
    let b = a + t.len() - trail_ws(t);
    assert(trim(s) =~= s.subrange(a, b));
    (a, b)
}

proof fn lemma_digit_char(d: nat)
    requires
        d < 10,
    ensures
        digit_val(digit_char(d)) == d,
        crate::text::is_digit(digit_char(d)),
        digit_char(d) != '+',
{
    if d == 0 {
    } else if d == 1 {
    } else if d == 2 {
    } else if d == 3 {
    } else if d == 4 {
    } else if d == 5 {
    } else if d == 6 {
    } else if d == 7 {
    } else if d == 8 {
    } else {
    }
}

proof fn lemma_no_char_first_idx(s: Seq<char>, c: char)
    requires
        !s.contains(c),
    ensures
        first_idx(s, c) == s.len(),
    decreases s.len(),
{
    if s.len() > 0 {
        assert(s[0] != c);
        assert(!s.drop_first().contains(c)) by {
            if s.drop_first().contains(c) {
                let i = choose|i: int| 0 <= i < s.drop_first().len() && s.drop_first()[i] == c;
                assert(s[i + 1] == c);
            }
        }
        lemma_no_char_first_idx(s.drop_first(), c);
    }
}

/// Any header value without pairs parses to the all-zero row.
pub proof fn law_userinfo_garbage_is_zero(s: Seq<char>)
    requires
        !s.contains('='),
    ensures
        userinfo_spec(s) == Some(zero_info()),
{
    law_userinfo_without_pairs_is_zero(s, zero_info());
}

/// Without a colon there is no IPv6 literal: domain names and IPv4
/// addresses are never filtered as IPv6.
pub proof fn law_ipv6_needs_colon(s: Seq<char>)
    requires
        !s.contains(':'),
    ensures
        !is_ipv6_literal(s),
{
    lemma_no_char_first_idx(s, ':');
    lemma_no_dcolon(s);
    assert(s.take(s.len() as int) =~= s);
    assert(group_count(s) != Some(8nat));
}

proof fn lemma_no_dcolon(s: Seq<char>)
    requires
        !s.contains(':'),
    ensures
        dcolon_idx(s) == s.len(),
    decreases s.len(),
{
    if s.len() >= 2 {
        assert(s[0] != ':');
        assert(!s.drop_first().contains(':')) by {
            if s.drop_first().contains(':') {
                let i = choose|i: int| 0 <= i < s.drop_first().len() && s.drop_first()[i] == ':';
                assert(s[i + 1] == ':');
            }
        }
        lemma_no_dcolon(s.drop_first());
    }
}

/// The IPv6 filter keeps no node whose server is an IPv6 literal.
pub proof fn law_filter_drops_all_ipv6(nodes: Seq<NodeMeta>)
    ensures
        forall|i: int| 0 <= i < kept_nodes(nodes).len() ==> !server_is_ipv6(
            #[trigger] kept_nodes(nodes)[i].out@,
        ),
    decreases nodes.len(),
{
    if nodes.len() > 0 {
        law_filter_drops_all_ipv6(nodes.drop_last());
        let rest = kept_nodes(nodes.drop_last());
        assert forall|i: int| 0 <= i < kept_nodes(nodes).len() implies !server_is_ipv6(
            #[trigger] kept_nodes(nodes)[i].out@,
        ) by {
            if i < rest.len() {
                assert(kept_nodes(nodes)[i] == rest[i]);
            }
        }
    }
}

/// The IPv6 filter keeps every node whose server is not an IPv6 literal:
/// filtering twice is filtering once.
pub proof fn law_filter_idempotent(nodes: Seq<NodeMeta>)
    ensures
        kept_nodes(kept_nodes(nodes)) == kept_nodes(nodes),
    decreases nodes.len(),
{
    if nodes.len() > 0 {
        law_filter_idempotent(nodes.drop_last());
        let rest = kept_nodes(nodes.drop_last());
        if !server_is_ipv6(nodes.last().out@) {
            assert(rest.push(nodes.last()).drop_last() =~= rest);
        }
    }
}

/// The log ring never grows past its capacity, and the entry just captured
/// is the newest one a one-line tail reads back.
pub proof fn law_log_ring_bounded<T>(ring: Seq<T>, e: T)
    requires
        ring.len() <= LOG_CAP,
    ensures
        ring_push(ring, e).len() <= LOG_CAP,
        ring_push(ring, e).last() == e,
        ring_tail(ring_push(ring, e), 1) == seq![e],
        ring.len() < LOG_CAP ==> ring_push(ring, e).len() == ring.len() + 1,
{
    let r = ring_push(ring, e);
    assert(r.len() >= 1);
    if r.len() > 1 {
        assert(r.skip(r.len() - 1) =~= seq![e]);
    } else {
        assert(r =~= seq![e]);
    }
}

/// A full ring evicts exactly its oldest entry.
pub proof fn law_log_ring_evicts_oldest<T>(ring: Seq<T>, e: T)
    requires
        ring.len() == LOG_CAP,
    ensures
        ring_push(ring, e) == ring.drop_first().push(e),
        ring_push(ring, e).len() == LOG_CAP,
{
}

/// `parse_u64` reads back what `u64_to_string` writes.
pub proof fn law_decimal_roundtrip(n: u64)
    ensures
        parse_u64_spec(decimal_digits(n as nat)) == Some(n),
{
    lemma_digits_value(n as nat);
    lemma_digits_no_plus(n as nat);
}

proof fn lemma_digits_value(n: nat)
    ensures
        decimal_digits(n).len() > 0,
        all_digits(decimal_digits(n)),
        decimal_value(decimal_digits(n)) == n,
    decreases n,
{
    if n < 10 {
        let d = decimal_digits(n);
        lemma_digit_char(n);
        assert(d == seq![digit_char(n)]);
        assert(d.drop_last() =~= Seq::<char>::empty());
        assert(decimal_value(d.drop_last()) == 0);
        assert(d.last() == digit_char(n));
        assert(decimal_value(d) == decimal_value(d.drop_last()) * 10 + digit_val(d.last()));
    } else {
        lemma_digits_value(n / 10);
        let d = decimal_digits(n);
        assert(d.drop_last() =~= decimal_digits(n / 10));
        lemma_digit_char(n % 10);
        assert forall|i: int| 0 <= i < d.len() implies crate::text::is_digit(#[trigger] d[i]) by {
            if i < d.len() - 1 {
                assert(d[i] == decimal_digits(n / 10)[i]);
            }
        }
    }
}

proof fn lemma_digits_no_plus(n: nat)
    ensures
        decimal_digits(n)[0] != '+',
    decreases n,
{
    lemma_digits_value(n);
    if n < 10 {
        lemma_digit_char(n);
    } else {
        lemma_digits_no_plus(n / 10);
        lemma_digits_value(n / 10);
        assert(decimal_digits(n)[0] == decimal_digits(n / 10)[0]);
    }
}

/// A copy never inserts a node the target group already holds, and every
/// inserted node belongs to the target group.
pub proof fn law_copy_skips_existing(
    source: Seq<Node>,
    target_ids: Seq<String>,
    requested: Seq<String>,
    target: i64,
)
    ensures
        ({
            let (ins, dup) = copy_plan_spec(source, target_ids, requested, target);
            &&& forall|i: int| 0 <= i < ins.len() ==> (#[trigger] ins[i]).group_id == target
            &&& forall|i: int| 0 <= i < ins.len() ==> !has_id(target_ids, (#[trigger] ins[i]).id@)
            &&& forall|i: int| 0 <= i < ins.len() ==> has_id(requested, (#[trigger] ins[i]).id@)
            &&& ins.len() + dup <= source.len()
        }),
    decreases source.len(),
{
    if source.len() > 0 {
        law_copy_skips_existing(source.drop_last(), target_ids, requested, target);
        let (ins0, dup0) = copy_plan_spec(source.drop_last(), target_ids, requested, target);
        let (ins, dup) = copy_plan_spec(source, target_ids, requested, target);
        assert forall|i: int| 0 <= i < ins.len() implies (#[trigger] ins[i]).group_id == target
            && !has_id(target_ids, ins[i].id@) && has_id(requested, ins[i].id@) by {
            if i < ins0.len() {
                assert(ins[i] == ins0[i]);
            }
        }
    }
}

/// A group without a subscription URL is never scheduled for refresh.
pub proof fn law_only_subscriptions_refresh(groups: Seq<Group>, now: u64, minutes: u32)
    ensures
        forall|i: int|
            0 <= i < groups.len() && groups[i].sub_url is None ==> !due_spec(groups, now, minutes).contains(
                #[trigger] groups[i].id,
            ) || exists|j: int|
                0 <= j < groups.len() && j != i && groups[j].id == groups[i].id && is_due(
                    groups[j],
                    now,
                    minutes,
                ),
    decreases groups.len(),
{
    if groups.len() > 0 {
        let g = groups.drop_last();
        law_only_subscriptions_refresh(g, now, minutes);
        assert forall|i: int|
            0 <= i < groups.len() && groups[i].sub_url is None implies !due_spec(
            groups,
            now,
            minutes,
        ).contains(#[trigger] groups[i].id) || exists|j: int|
            0 <= j < groups.len() && j != i && groups[j].id == groups[i].id && is_due(
                groups[j],
                now,
                minutes,
            ) by {
            lemma_due_members(groups, now, minutes);
            if due_spec(groups, now, minutes).contains(groups[i].id) {
                let k = choose|k: int|
                    0 <= k < groups.len() && groups[k].id == groups[i].id && is_due(groups[k], now, minutes);
                assert(k != i);
            }
        }
    }
}

proof fn lemma_due_members(groups: Seq<Group>, now: u64, minutes: u32)
    ensures
        forall|x: i64|
            due_spec(groups, now, minutes).contains(x) ==> exists|k: int|
                0 <= k < groups.len() && groups[k].id == x && is_due(groups[k], now, minutes),
    decreases groups.len(),
{
    if groups.len() > 0 {
        let g = groups.drop_last();
        lemma_due_members(g, now, minutes);
        assert forall|x: i64| due_spec(groups, now, minutes).contains(x) implies exists|k: int|
            0 <= k < groups.len() && groups[k].id == x && is_due(groups[k], now, minutes) by {
            let d = due_spec(groups, now, minutes);
            let d0 = due_spec(g, now, minutes);
            let i = choose|i: int| 0 <= i < d.len() && d[i] == x;
            if i < d0.len() {
                assert(d0[i] == x);
                assert(d0.contains(x));
                let k = choose|k: int| 0 <= k < g.len() && g[k].id == x && is_due(g[k], now, minutes);
                assert(groups[k] == g[k]);
            } else {
                assert(groups[groups.len() - 1].id == x);
            }
        }
    }
}

/// The stored refresh interval is always between five minutes and a week.
pub proof fn law_interval_clamped(v: u32)
    ensures
        5 <= clamp_minutes(v) <= 10080,
        5 <= v <= 10080 ==> clamp_minutes(v) == v,
{
}

/// Two activations within the double-click window toggle the window. On a
/// visible window the first one shows it and the second hides it; on a
/// hidden one the first schedules a deferred show and the second shows the
/// window at once and supersedes that deferred show.
pub proof fn law_tray_double_click_toggles(
    last: Option<u64>,
    generation: u64,
    t1: u64,
    t2: u64,
    visible: bool,
)
    requires
        !is_double_click(last, t1),
        t1 <= t2,
        t2 - t1 <= TRAY_DOUBLE_CLICK_NANOS,
    ensures
        ({
            let (l1, g1, a1) = tray_step(last, generation, t1, visible);
            let (l2, g2, a2) = tray_step(l1, g1, t2, visible);
            &&& visible ==> a1 == WindowAction::Show && a2 == WindowAction::Hide
            &&& !visible ==> a1 == WindowAction::DeferShow(g1) && a2 == WindowAction::Show && g2 != g1
        }),
{
}

/// Every activation moves the generation on, so a show deferred by one
/// activation no longer applies once another activation has come.
pub proof fn law_tray_activation_supersedes(last: Option<u64>, generation: u64, now: u64, visible: bool)
    ensures
        tray_step(last, generation, now, visible).1 != generation,
{
}

/// While a group is being refreshed a second refresh of it is refused, and
/// ending the refresh leaves the set of running refreshes as it was.
pub proof fn law_refresh_guard_roundtrip(running: Set<i64>, group_id: i64)
    requires
        !running.contains(group_id),
    ensures
        running.insert(group_id).contains(group_id),
        running.insert(group_id).remove(group_id) == running,
{
    assert(running.insert(group_id).remove(group_id) =~= running);
}

/// How `gsettings get` prints a string value: quoted, then a newline.
pub open spec fn printed_string(v: Seq<char>) -> Seq<char> {
    seq!['\''] + v + seq!['\'', '\n']
}

/// How `gsettings get` prints an integer value: its digits, then a newline.
pub open spec fn printed_uint(v: Seq<char>) -> Seq<char> {
    v + seq!['\n']
}

proof fn lemma_gvalue_printed_string(v: Seq<char>)
    requires
        v.len() > 0,
        v[0] != '\'',
        v.last() != '\'',
    ensures
        gvalue(printed_string(v)) == v,
{
    let p = printed_string(v);
    crate::text::lemma_lead_ws_unique(p, 0);
    let t = p.skip(0);
    assert(t =~= p);
    crate::text::lemma_trail_ws_unique(p, 1);
    let q = seq!['\''] + v + seq!['\''];
    assert(trim(p) =~= q);
    lemma_quotes_exact(q, v);
}

proof fn lemma_quotes_exact(q: Seq<char>, v: Seq<char>)
    requires
        v.len() > 0,
        v[0] != '\'',
        v.last() != '\'',
        q == seq!['\''] + v + seq!['\''],
    ensures
        unquote(q) == v,
{
    assert(q.drop_first()[0] == v[0]);
    assert(lead_quotes(q.drop_first()) == 0);
    assert(lead_quotes(q) == 1);
    assert(q.drop_last().last() == v.last());
    assert(trail_quotes(q.drop_last()) == 0);
    assert(trail_quotes(q) == 1);
    assert(q.subrange(1, q.len() - 1) =~= v);
}

proof fn lemma_gvalue_printed_uint(n: nat)
    ensures
        gvalue(printed_uint(decimal_digits(n))) == decimal_digits(n),
{
    lemma_digits_value(n);
    let v = decimal_digits(n);
    let p = printed_uint(v);
    assert(crate::text::is_digit(v[0]));
    assert(crate::text::is_digit(v[v.len() - 1]));
    crate::text::lemma_lead_ws_unique(p, 0);
    assert(p.skip(0) =~= p);
    crate::text::lemma_trail_ws_unique(p, 1);
    assert(trim(p) =~= v);
    assert(lead_quotes(v) == 0);
    assert(v.len() == v.drop_last().len() + 1);
    assert(trail_quotes(v) == 0);
    assert(v.subrange(0, v.len() as int) =~= v);
}

/// The leftover check reads back what enabling wrote: once the proxy was
/// routed to 127.0.0.1:`port`, the `gsettings get` outputs are recognised as
/// a leftover for `port` and for no other port, and a proxy switched back
/// to mode "none" is never one.
pub proof fn law_leftover_reads_back_enable(port: u16, other: u16, host: Option<Seq<char>>, port_out: Option<Seq<char>>)
    ensures
        leftover_spec(
            port,
            Some(printed_string("manual"@)),
            Some(printed_string("127.0.0.1"@)),
            Some(printed_uint(dec(port as u64))),
        ),
        other != port ==> !leftover_spec(
            other,
            Some(printed_string("manual"@)),
            Some(printed_string("127.0.0.1"@)),
            Some(printed_uint(dec(port as u64))),
        ),
        !leftover_spec(port, Some(printed_string("none"@)), host, port_out),
{
    reveal_strlit("manual");
    reveal_strlit("127.0.0.1");
    reveal_strlit("none");
    lemma_gvalue_printed_string("manual"@);
    lemma_gvalue_printed_string("127.0.0.1"@);
    lemma_gvalue_printed_string("none"@);
    lemma_gvalue_printed_uint(port as nat);
    assert("none"@ != "manual"@) by {
        assert("none"@[0] != "manual"@[0]);
    }
    if other != port {
        lemma_digits_value(port as nat);
        lemma_digits_value(other as nat);
        assert(dec(other as u64) != dec(port as u64));
    }
}

/// A request that could not be sent makes the client respawn the daemon
/// and retry when it failed on the first attempt within five seconds, and
/// never on the retry.
pub proof fn law_send_failure_respawns(method: Seq<char>, err: Seq<char>, elapsed_nanos: u128)
    ensures
        elapsed_nanos < 5_000_000_000 ==> respawn_spec(send_error_spec(method, err), 0, elapsed_nanos),
        !respawn_spec(send_error_spec(method, err), 1, elapsed_nanos),
{
    reveal_strlit("core rpc send error for ");
    reveal_strlit("core rpc send error");
    let e = send_error_spec(method, err);
    assert(e.take("core rpc send error"@.len() as int) =~= "core rpc send error"@);
}

/// A strategy pseudo-row's id names its group: reading the id written
/// for group `id` gives `id` back.
pub proof fn law_strategy_row_id_roundtrip(id: i64)
    ensures
        crate::commands::strat_id_spec("strat:"@ + crate::text::signed_digits(id as int)) == Some(id),
{
    reveal_strlit("strat:");
    let x = "strat:"@ + crate::text::signed_digits(id as int);
    assert(x.take(6) =~= "strat:"@);
    assert(x.skip(6) =~= crate::text::signed_digits(id as int));
    let d = crate::text::signed_digits(id as int);
    if id < 0 {
        let m = (0 - id) as nat;
        lemma_digits_value(m);
        lemma_digits_no_plus(m);
        assert(d.drop_first() =~= decimal_digits(m));
        assert(d[0] == '-');
    } else {
        lemma_digits_value(id as nat);
        lemma_digits_no_plus(id as nat);
        assert(crate::text::is_digit(d[0]));
    }
}

/// A batch probe pushes a row to the UI only when its value changes:
/// right after a row was recorded, observing the same value again for the
/// same node is silent.
pub proof fn law_progress_repeat_is_silent(
    shown: Map<Seq<char>, (Option<i64>, Option<Seq<char>>)>,
    id: Seq<char>,
    value: (Option<i64>, Option<Seq<char>>),
)
    ensures
        shown.insert(id, value).contains_key(id) && shown.insert(id, value)[id] == value,
{
}

/// What `gsettings get` prints for a value set as `v` under `key`: the
/// ports are integers, printed bare; the other keys print quoted.
pub open spec fn printed_value(key: Seq<char>, v: Seq<char>) -> Seq<char> {
    if key == "port"@ {
        printed_uint(v)
    } else {
        printed_string(v)
    }
}

/// A GSettings store, as the printed value per (schema, key), after the
/// `gsettings set` calls `calls` ran in order and succeeded.
pub open spec fn apply_calls(
    store: Map<(Seq<char>, Seq<char>), Seq<char>>,
    calls: Seq<Seq<Seq<char>>>,
) -> Map<(Seq<char>, Seq<char>), Seq<char>>
    decreases calls.len(),
{
    if calls.len() == 0 {
        store
    } else {
        let before = apply_calls(store, calls.drop_last());
        let c = calls.last();
        if c.len() == 4 && c[0] == "set"@ {
            before.insert((c[1], c[2]), printed_value(c[2], c[3]))
        } else {
            before
        }
    }
}

/// What `gsettings get schema key` prints on `store` (`None`: no value).
pub open spec fn read_key(store: Map<(Seq<char>, Seq<char>), Seq<char>>, schema: Seq<char>, key: Seq<char>) -> Option<
    Seq<char>,
> {
    if store.contains_key((schema, key)) {
        Some(store[(schema, key)])
    } else {
        None
    }
}

/// The leftover check run on the outputs of the `leftover_queries` calls
/// against `store`.
pub open spec fn leftover_in(store: Map<(Seq<char>, Seq<char>), Seq<char>>, port: u16) -> bool {
    leftover_spec(
        port,
        read_key(store, "org.gnome.system.proxy"@, "mode"@),
        read_key(store, "org.gnome.system.proxy.http"@, "host"@),
        read_key(store, "org.gnome.system.proxy.http"@, "port"@),
    )
}

/// After the calls of `enable(port)` succeeded, whatever the store held
/// before, the leftover check reports exactly `port`; after the call of
/// `disable()` succeeded in turn, it reports no port.
pub proof fn law_leftover_after_enable_and_disable(
    store: Map<(Seq<char>, Seq<char>), Seq<char>>,
    port: u16,
    q: u16,
)
    ensures
        leftover_in(apply_calls(store, enable_calls(port)), q) == (q == port),
        !leftover_in(apply_calls(apply_calls(store, enable_calls(port)), disable_calls()), q),
{
    reveal_strlit("set");
    reveal_strlit("org.gnome.system.proxy");
    reveal_strlit("org.gnome.system.proxy.http");
    reveal_strlit("org.gnome.system.proxy.https");
    reveal_strlit("org.gnome.system.proxy.socks");
    reveal_strlit("mode");
    reveal_strlit("host");
    reveal_strlit("port");
    reveal_strlit("ignore-hosts");
    reveal_strlit("manual");
    reveal_strlit("none");
    reveal_strlit("127.0.0.1");
    let pr = "org.gnome.system.proxy"@;
    let ht = "org.gnome.system.proxy.http"@;
    let hs = "org.gnome.system.proxy.https"@;
    let sk = "org.gnome.system.proxy.socks"@;
    assert(pr.len() == 22 && ht.len() == 27 && hs.len() == 28 && sk.len() == 28);
    assert("mode"@ != "host"@) by {
        assert("mode"@[0] != "host"@[0]);
    }
    assert("mode"@ != "port"@) by {
        assert("mode"@[0] != "port"@[0]);
    }
    assert("host"@ != "port"@) by {
        assert("host"@[0] != "port"@[0]);
    }
    assert("ignore-hosts"@.len() == 12);
    let k0 = (pr, "mode"@);
    let s8 = apply_calls(store, enable_calls(port));
    lemma_enable_reads(store, port);
    let after = apply_calls(s8, disable_calls());
    lemma_apply_step(s8, disable_calls(), 0);
    assert(disable_calls().take(1) =~= disable_calls());
    assert(disable_calls().take(0) =~= Seq::<Seq<Seq<char>>>::empty());
    assert(apply_calls(s8, disable_calls().take(0)) == s8);
    assert(after == s8.insert(k0, printed_value("mode"@, "none"@)));
    assert(read_key(after, pr, "mode"@) == Some(printed_string("none"@)));
    law_leftover_reads_back_enable(port, q, read_key(after, ht, "host"@), read_key(after, ht, "port"@));
}

proof fn lemma_apply_step(store: Map<(Seq<char>, Seq<char>), Seq<char>>, calls: Seq<Seq<Seq<char>>>, k: int)
    requires
        0 <= k < calls.len(),
        calls[k].len() == 4,
        calls[k][0] == "set"@,
    ensures
        apply_calls(store, calls.take(k + 1)) == apply_calls(store, calls.take(k)).insert(
            (calls[k][1], calls[k][2]),
            printed_value(calls[k][2], calls[k][3]),
        ),
{
    assert(calls.take(k + 1).drop_last() =~= calls.take(k));
    assert(calls.take(k + 1).last() == calls[k]);
}

proof fn lemma_enable_reads(store: Map<(Seq<char>, Seq<char>), Seq<char>>, port: u16)
    ensures
        read_key(apply_calls(store, enable_calls(port)), "org.gnome.system.proxy"@, "mode"@) == Some(
            printed_string("manual"@),
        ),
        read_key(apply_calls(store, enable_calls(port)), "org.gnome.system.proxy.http"@, "host"@) == Some(
            printed_string("127.0.0.1"@),
        ),
        read_key(apply_calls(store, enable_calls(port)), "org.gnome.system.proxy.http"@, "port"@) == Some(
            printed_uint(dec(port as u64)),
        ),
{
    reveal_strlit("set");
    reveal_strlit("org.gnome.system.proxy");
    reveal_strlit("org.gnome.system.proxy.http");
    reveal_strlit("org.gnome.system.proxy.https");
    reveal_strlit("org.gnome.system.proxy.socks");
    reveal_strlit("mode");
    reveal_strlit("host");
    reveal_strlit("port");
    reveal_strlit("ignore-hosts");
    let pr = "org.gnome.system.proxy"@;
    let ht = "org.gnome.system.proxy.http"@;
    let hs = "org.gnome.system.proxy.https"@;
    let sk = "org.gnome.system.proxy.socks"@;
    assert(pr.len() == 22 && ht.len() == 27 && hs.len() == 28 && sk.len() == 28);
    assert("mode"@ != "host"@) by {
        assert("mode"@[0] != "host"@[0]);
    }
    assert("mode"@ != "port"@) by {
        assert("mode"@[0] != "port"@[0]);
    }
    assert("host"@ != "port"@) by {
        assert("host"@[0] != "port"@[0]);
    }
    assert("ignore-hosts"@.len() == 12 && "mode"@.len() == 4);
    let c = enable_calls(port);
    assert(c.len() == 8);
    lemma_apply_step(store, c, 0);
    lemma_apply_step(store, c, 1);
    lemma_apply_step(store, c, 2);
    lemma_apply_step(store, c, 3);
    lemma_apply_step(store, c, 4);
    lemma_apply_step(store, c, 5);
    lemma_apply_step(store, c, 6);
    lemma_apply_step(store, c, 7);
    let t0 = apply_calls(store, c.take(0));
    let t1 = apply_calls(store, c.take(1));
    let t2 = apply_calls(store, c.take(2));
    let t3 = apply_calls(store, c.take(3));
    let t4 = apply_calls(store, c.take(4));
    let t5 = apply_calls(store, c.take(5));
    let t6 = apply_calls(store, c.take(6));
    let t7 = apply_calls(store, c.take(7));
    let t8 = apply_calls(store, c.take(8));
    assert(c.take(8) =~= c);
    let k0 = (pr, "mode"@);
    let k1 = (ht, "host"@);
    let k2 = (ht, "port"@);
    assert(t1 == t0.insert(k0, printed_value("mode"@, "manual"@)));
    assert(t2 == t1.insert(k1, printed_value("host"@, "127.0.0.1"@)));
    assert(t3 == t2.insert(k2, printed_value("port"@, dec(port as u64))));
    assert(t4 == t3.insert((hs, "host"@), printed_value("host"@, "127.0.0.1"@)));
    assert(t5 == t4.insert((hs, "port"@), printed_value("port"@, dec(port as u64))));
    assert(t6 == t5.insert((sk, "host"@), printed_value("host"@, "127.0.0.1"@)));
    assert(t7 == t6.insert((sk, "port"@), printed_value("port"@, dec(port as u64))));
    assert(t8 == t7.insert(
        (pr, "ignore-hosts"@),
        printed_value("ignore-hosts"@, "['localhost', '127.0.0.0/8', '::1']"@),
    ));
    assert(t8.contains_key(k0) && t8[k0] == printed_string("manual"@));
    assert(t8.contains_key(k1) && t8[k1] == printed_string("127.0.0.1"@));
    assert(t8.contains_key(k2) && t8[k2] == printed_uint(dec(port as u64)));
}

/// Measuring a strategy group reports its fastest member: when some row
/// has a delay, the reported delay is one of the rows' delays and no row
/// has a smaller one; when no row has a delay, none is reported.
pub proof fn law_strategy_reports_fastest(rows: Seq<UrlTestRow>)
    ensures
        (exists|i: int| 0 <= i < rows.len() && (#[trigger] rows[i]).delay_ms is Some) ==> {
            &&& min_delay(rows) is Some
            &&& exists|i: int| 0 <= i < rows.len() && (#[trigger] rows[i]).delay_ms == min_delay(rows)
            &&& forall|j: int|
                0 <= j < rows.len() && (#[trigger] rows[j]).delay_ms is Some ==> min_delay(rows)->Some_0
                    <= rows[j].delay_ms->Some_0
        },
        !(exists|i: int| 0 <= i < rows.len() && (#[trigger] rows[i]).delay_ms is Some) ==> min_delay(rows) is None,
    decreases rows.len(),
{
    if rows.len() > 0 {
        let front = rows.drop_last();
        law_strategy_reports_fastest(front);
        assert forall|i: int| 0 <= i < front.len() implies #[trigger] front[i] == rows[i] by {}
        let n = rows.len() - 1;
        if exists|i: int| 0 <= i < front.len() && (#[trigger] front[i]).delay_ms is Some {
            let k = choose|i: int| 0 <= i < front.len() && (#[trigger] front[i]).delay_ms == min_delay(front);
            assert(rows[k] == front[k]);
            assert forall|j: int| 0 <= j < rows.len() && (#[trigger] rows[j]).delay_ms is Some implies min_delay(
                rows,
            )->Some_0 <= rows[j].delay_ms->Some_0 by {
                if j < n {
                    assert(front[j] == rows[j]);
                }
            }
            if rows[n].delay_ms is Some && rows[n].delay_ms->Some_0 < min_delay(front)->Some_0 {
                assert(rows[n].delay_ms == min_delay(rows));
            } else {
                assert(rows[k].delay_ms == min_delay(rows));
            }
        } else {
            assert forall|j: int| 0 <= j < rows.len() && (#[trigger] rows[j]).delay_ms is Some implies min_delay(
                rows,
            )->Some_0 <= rows[j].delay_ms->Some_0 by {
                if j < n {
                    assert(front[j] == rows[j]);
                }
            }
            if rows[n].delay_ms is Some {
                assert(rows[n].delay_ms == min_delay(rows));
            } else {
                assert forall|i: int| 0 <= i < rows.len() implies (#[trigger] rows[i]).delay_ms is None by {
                    if i < n {
                        assert(front[i] == rows[i]);
                    }
                }
            }
        }
    }
}

/// Copying inserts every requested source node that the target does not
/// hold yet, re-homed into the target and in source order, and nothing
/// else; the requested nodes the target holds are the duplicates, so the
/// inserted and duplicated counts add up to the requested source nodes.
pub proof fn law_copy_inserts_every_missing(
    source: Seq<Node>,
    target_ids: Seq<String>,
    requested: Seq<String>,
    target: i64,
)
    ensures
        ({
            let (ins, dup) = copy_plan_spec(source, target_ids, requested, target);
            &&& ins == source.filter(|n: Node| has_id(requested, n.id@) && !has_id(target_ids, n.id@)).map_values(
                |n: Node| Node { group_id: target, ..n },
            )
            &&& dup == source.filter(|n: Node| has_id(requested, n.id@) && has_id(target_ids, n.id@)).len()
            &&& ins.len() + dup == source.filter(|n: Node| has_id(requested, n.id@)).len()
            &&& forall|i: int|
                0 <= i < source.len() && has_id(requested, (#[trigger] source[i]).id@) && !has_id(
                    target_ids,
                    source[i].id@,
                ) ==> ins.contains(Node { group_id: target, ..source[i] })
        }),
    decreases source.len(),
{
    let fi = |n: Node| has_id(requested, n.id@) && !has_id(target_ids, n.id@);
    let fd = |n: Node| has_id(requested, n.id@) && has_id(target_ids, n.id@);
    let fr = |n: Node| has_id(requested, n.id@);
    let g = |n: Node| Node { group_id: target, ..n };
    if source.len() == 0 {
        assert(source.filter(fi) =~= Seq::<Node>::empty());
        assert(source.filter(fi).map_values(g) =~= Seq::<Node>::empty());
    } else {
        let front = source.drop_last();
        let last = source.last();
        law_copy_inserts_every_missing(front, target_ids, requested, target);
        let (ins0, dup0) = copy_plan_spec(front, target_ids, requested, target);
        let (ins, dup) = copy_plan_spec(source, target_ids, requested, target);
        reveal_with_fuel(Seq::filter, 1);
        assert(source.filter(fi) == if fi(last) {
            front.filter(fi).push(last)
        } else {
            front.filter(fi)
        });
        assert(source.filter(fd) == if fd(last) {
            front.filter(fd).push(last)
        } else {
            front.filter(fd)
        });
        assert(source.filter(fr) == if fr(last) {
            front.filter(fr).push(last)
        } else {
            front.filter(fr)
        });
        if fi(last) {
            assert(front.filter(fi).push(last).map_values(g) =~= front.filter(fi).map_values(g).push(g(last)));
        }
        assert forall|i: int|
            0 <= i < source.len() && has_id(requested, (#[trigger] source[i]).id@) && !has_id(
                target_ids,
                source[i].id@,
            ) implies ins.contains(Node { group_id: target, ..source[i] }) by {
            if i < front.len() {
                assert(front[i] == source[i]);
                let k = choose|k: int| 0 <= k < ins0.len() && ins0[k] == Node { group_id: target, ..front[i] };
                assert(ins[k] == ins0[k]);
            } else {
                assert(ins[ins.len() - 1] == Node { group_id: target, ..last });
            }
        }
    }
}

/// A captured line is stored without its escape sequences, and the level
/// recorded with it is the classification of that stored text; so
/// capturing a coloured line records exactly what capturing its plain
/// text records.
pub proof fn law_log_level_of_stored_text(raw: Seq<char>)
    ensures
        match log_entry_of(raw) {
            Some((level, line)) => {
                &&& line == strip_ansi_spec(raw)
                &&& !line.contains('\u{1b}')
                &&& level == level_spec(line)
            },
            None => trim(strip_ansi_spec(raw)).len() == 0,
        },
        log_entry_of(strip_ansi_spec(raw)) == log_entry_of(raw),
{
    law_strip_ansi_removes_escapes(raw);
    law_strip_ansi_idempotent(raw);
}

/// Seconds since a group's last successful refresh (a group never
/// refreshed, or with a time before the epoch, counts from time 0; a time
/// in the future counts as just now).
pub open spec fn seconds_since_refresh(g: Group, now: u64) -> int {
    let last: int = match g.last_update_epoch {
        Some(e) => if e >= 0 {
            e as int
        } else {
            0
        },
        None => 0,
    };
    if now >= last {
        now - last
    } else {
        0
    }
}

/// A subscription group whose last refresh is at least `max(minutes, 5)`
/// minutes old.
pub open spec fn refresh_overdue(g: Group, now: u64, minutes: u32) -> bool {
    &&& g.sub_url is Some
    &&& seconds_since_refresh(g, now) >= (if minutes < 5 {
        5
    } else {
        minutes as int
    }) * 60
}

/// The auto-refresh pass picks exactly the overdue subscription groups,
/// whatever `minutes` is: every id it returns belongs to an overdue group,
/// and every overdue group's id is returned.
pub proof fn law_due_exactly_when_interval_passed(groups: Seq<Group>, now: u64, minutes: u32)
    ensures
        forall|x: i64|
            due_spec(groups, now, minutes).contains(x) ==> exists|i: int|
                0 <= i < groups.len() && (#[trigger] groups[i]).id == x && refresh_overdue(groups[i], now, minutes),
        forall|i: int|
            0 <= i < groups.len() && refresh_overdue(#[trigger] groups[i], now, minutes) ==> due_spec(
                groups,
                now,
                minutes,
            ).contains(groups[i].id),
{
    assert forall|g: Group| #[trigger] is_due(g, now, minutes) == refresh_overdue(g, now, minutes) by {}
    lemma_due_members(groups, now, minutes);
    lemma_due_complete(groups, now, minutes);
}

proof fn lemma_due_complete(groups: Seq<Group>, now: u64, minutes: u32)
    ensures
        forall|i: int|
            0 <= i < groups.len() && is_due(#[trigger] groups[i], now, minutes) ==> due_spec(groups, now, minutes).contains(
                groups[i].id,
            ),
    decreases groups.len(),
{
    if groups.len() > 0 {
        let g = groups.drop_last();
        lemma_due_complete(g, now, minutes);
        let d = due_spec(groups, now, minutes);
        let d0 = due_spec(g, now, minutes);
        assert forall|i: int| 0 <= i < groups.len() && is_due(#[trigger] groups[i], now, minutes) implies d.contains(
            groups[i].id,
        ) by {
            if i < g.len() {
                assert(g[i] == groups[i]);
                assert(d0.contains(g[i].id));
                let k = choose|k: int| 0 <= k < d0.len() && d0[k] == g[i].id;
                assert(d[k] == d0[k]);
            } else {
                assert(d[d.len() - 1] == groups[i].id);
            }
        }
    }
}

/// The orphan reaper inspects every `/proc` entry that reads as a process
/// id other than its own, whatever entries come before it, and nothing
/// else.
pub proof fn law_reap_every_pid(names: Seq<Seq<char>>, own_pid: u32)
    ensures
        forall|i: int|
            0 <= i < names.len() && (#[trigger] parse_i64_spec(names[i])) is Some && parse_i64_spec(
                names[i],
            )->Some_0 != own_pid as i64 ==> reap_candidates_spec(names, own_pid).contains(
                parse_i64_spec(names[i])->Some_0,
            ),
        forall|p: i64|
            reap_candidates_spec(names, own_pid).contains(p) ==> p != own_pid as i64 && exists|i: int|
                0 <= i < names.len() && #[trigger] parse_i64_spec(names[i]) == Some(p),
    decreases names.len(),
{
    if names.len() > 0 {
        let front = names.drop_last();
        law_reap_every_pid(front, own_pid);
        let r = reap_candidates_spec(names, own_pid);
        let r0 = reap_candidates_spec(front, own_pid);
        let n = names.len() - 1;
        assert forall|i: int|
            0 <= i < names.len() && (#[trigger] parse_i64_spec(names[i])) is Some && parse_i64_spec(
                names[i],
            )->Some_0 != own_pid as i64 implies r.contains(parse_i64_spec(names[i])->Some_0) by {
            let p = parse_i64_spec(names[i])->Some_0;
            if i < n {
                assert(front[i] == names[i]);
                assert(r0.contains(p));
                let k = choose|k: int| 0 <= k < r0.len() && r0[k] == p;
                assert(r[k] == r0[k]);
            } else {
                assert(r[r.len() - 1] == p);
            }
        }
        assert forall|p: i64| r.contains(p) implies p != own_pid as i64 && exists|i: int|
            0 <= i < names.len() && #[trigger] parse_i64_spec(names[i]) == Some(p) by {
            let k = choose|k: int| 0 <= k < r.len() && r[k] == p;
            if k < r0.len() {
                assert(r0[k] == r[k]);
                assert(r0.contains(p));
                let i = choose|i: int| 0 <= i < front.len() && #[trigger] parse_i64_spec(front[i]) == Some(p);
                assert(front[i] == names[i]);
            } else {
                assert(parse_i64_spec(names[n]) == Some(p));
            }
        }
    }
}

} // verus!
