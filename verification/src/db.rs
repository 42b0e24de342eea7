//! The persisted data model (groups, nodes, latency rows, settings) and the
//! decisions the store makes over it that are not SQL: the protected
//! default group, copy planning between groups, and the settings defaults.
//! Each node stores its sing-box outbound JSON verbatim.

use vstd::prelude::*;
use std::collections::HashMap;
use crate::text::owned;

verus! {

/// Id of the built-in default group, which cannot be renamed or deleted.
pub const DEFAULT_GROUP_ID: i64 = 1;

#[derive(Clone, Debug)]
pub struct Group {
    pub id: i64,
    pub name: String,
    pub sub_url: Option<String>,
    pub user_agent: Option<String>,
    /// JSON map of extra headers (without User-Agent).
    pub extra_headers: Option<String>,
    pub sub_userinfo: Option<String>,
    pub updated_at: Option<String>,
    /// unix seconds of the last successful fetch/refresh.
    pub last_update_epoch: Option<i64>,
}

#[derive(Clone, Debug)]
pub struct Node {
    pub id: String,
    pub group_id: i64,
    pub node_type: String,
    pub remark: String,
    /// sing-box outbound options JSON (without tag).
    pub out: String,
}

impl Node {
    /// A copy equal to `self`.
    pub fn duplicate(&self) -> (r: Node)
        ensures
            r == *self,
    {
        Node {
            id: self.id.clone(),
            group_id: self.group_id,
            node_type: self.node_type.clone(),
            remark: self.remark.clone(),
            out: self.out.clone(),
        }
    }
}

#[derive(Clone, Debug)]
pub struct NewNode {
    pub id: String,
    pub node_type: String,
    pub remark: String,
    pub out: String,
}

pub fn default_log_level() -> (r: String)
    ensures
        r@ == "warn"@,
{
    owned("warn")
}

pub fn default_true() -> (r: bool)
    ensures
        r,
{
    true
}

pub fn default_false() -> (r: bool)
    ensures
        !r,
{
    false
}

/// Minutes between automatic subscription refreshes by default (6h).
pub fn default_auto_minutes() -> (r: u32)
    ensures
        r == 360,
{
    360
}

#[derive(Clone, Debug)]
pub struct Settings {
    pub current_group_id: i64,
    pub port: u16,
    /// global | direct | rule
    pub mode: String,
    pub proxy_enabled: bool,
    pub close_to_tray: bool,
    /// debug | info | warn | error
    pub log_level: String,
    pub sort_by_delay: bool,
    pub filter_ipv6: bool,
    pub auto_update_subscriptions: bool,
    /// interval in minutes between automatic subscription refreshes.
    pub auto_update_minutes: u32,
    pub selected_by_group: HashMap<i64, String>,
    /// UI language chosen on the settings page (empty until one is chosen).
    pub language: String,
    /// Start the app when the user logs in.
    pub auto_start: bool,
    /// The custom routing profile rule mode uses (`None`: the built-in
    /// bypass-mainland rules).
    pub route_profile_id: Option<i64>,
}

pub open spec fn is_default_settings(s: Settings) -> bool {
    &&& s.current_group_id == 1
    &&& s.port == 2080
    &&& s.mode@ == "global"@
    &&& !s.proxy_enabled
    &&& s.close_to_tray
    &&& s.log_level@ == "warn"@
    &&& s.sort_by_delay
    &&& !s.filter_ipv6
    &&& !s.auto_update_subscriptions
    &&& s.auto_update_minutes == 360
    &&& s.selected_by_group@ == Map::<i64, String>::empty()
    &&& s.language@ == Seq::<char>::empty()
    &&& !s.auto_start
    &&& s.route_profile_id is None
}

impl Default for Settings {
    fn default() -> (s: Settings)
        ensures
            is_default_settings(s),
    {
        Settings {
            current_group_id: 1,
            port: 2080,
            mode: owned("global"),
            // the system proxy is opt-in via the toolbar switch
            proxy_enabled: false,
            close_to_tray: true,
            log_level: default_log_level(),
            sort_by_delay: true,
            filter_ipv6: false,
            auto_update_subscriptions: false,
            auto_update_minutes: default_auto_minutes(),
            selected_by_group: HashMap::new(),
            language: String::new(),
            // autostart stays off until the user turns it on
            auto_start: false,
            route_profile_id: None,
        }
    }
}

/// A custom routing profile for rule mode: its sing-box route rules (a
/// JSON array of rule objects) and the final outbound
/// (proxy / direct / block).
#[derive(Clone, Debug)]
pub struct RouteProfile {
    pub id: i64,
    pub name: String,
    pub final_out: String,
    pub rules_json: String,
}

#[derive(Clone, Debug)]
pub struct LatencyRow {
    pub node_id: String,
    pub delay_ms: Option<i64>,
    pub error: Option<String>,
    pub tested_at: String,
}

/// Whether renaming or deleting group `id` is a no-op (the default group
/// keeps its name and always exists).
pub fn is_protected_group(id: i64) -> (r: bool)
    ensures
        r == (id == DEFAULT_GROUP_ID),
{
    id == DEFAULT_GROUP_ID
}

/// Whether `ids` holds a string equal to `id`.
pub fn contains_id(ids: &[String], id: &String) -> (r: bool)
    ensures
        r == exists|i: int| 0 <= i < ids@.len() && #[trigger] ids@[i]@ == id@,
{
    let mut i: usize = 0;
    while i < ids.len()
        invariant
            i <= ids@.len(),
            forall|j: int| 0 <= j < i ==> #[trigger] ids@[j]@ != id@,
        decreases ids@.len() - i,
    {
        if ids[i] == *id {
            return true;
        }
        i = i + 1;
    }
    false
}

pub open spec fn has_id(ids: Seq<String>, id: Seq<char>) -> bool {
    exists|i: int| 0 <= i < ids.len() && #[trigger] ids[i]@ == id
}

/// The copy of `source` nodes into `target`: the selected nodes (those whose
/// id is requested) that the target does not hold yet, re-homed into the
/// target group, in source order; `dup` counts the selected ones skipped.
pub open spec fn copy_plan_spec(
    source: Seq<Node>,
    target_ids: Seq<String>,
    requested: Seq<String>,
    target: i64,
) -> (Seq<Node>, nat)
    decreases source.len(),
{
    if source.len() == 0 {
        (seq![], 0)
    } else {
        let (ins, dup) = copy_plan_spec(source.drop_last(), target_ids, requested, target);
        let n = source.last();
        if !has_id(requested, n.id@) {
            (ins, dup)
        } else if has_id(target_ids, n.id@) {
            (ins, dup + 1)
        } else {
            (ins.push(Node { group_id: target, ..n }), dup)
        }
    }
}

/// Plans copying the requested nodes of a source group (its nodes in
/// order) into a target group that already holds `target_ids`. Copying a
/// group into itself inserts nothing and counts every requested id as a
/// duplicate. Returns (nodes to insert, inserted, duplicated).
pub fn plan_copy(
    source_group: i64,
    target_group: i64,
    source_nodes: &[Node],
    target_ids: &[String],
    node_ids: &[String],
) -> (r: (Vec<Node>, usize, usize))
    ensures
        source_group == target_group ==> r.0@.len() == 0 && r.1 == 0 && r.2 == node_ids@.len(),
        source_group != target_group ==> ({
            let (ins, dup) = copy_plan_spec(source_nodes@, target_ids@, node_ids@, target_group);
            r.0@ == ins && r.1 == ins.len() && r.2 == dup
        }),
{
    if source_group == target_group {
        return (Vec::new(), 0, node_ids.len());
    }
    let mut ins: Vec<Node> = Vec::new();
    let mut dup: usize = 0;
    let mut i: usize = 0;
    while i < source_nodes.len()
        invariant
            i <= source_nodes@.len(),
            ({
                let (si, sd) = copy_plan_spec(
                    source_nodes@.take(i as int),
                    target_ids@,
                    node_ids@,
                    target_group,
                );
                ins@ == si && dup == sd
            }),
            dup <= i,
        decreases source_nodes@.len() - i,
    {
        let n = &source_nodes[i];
        proof {
            assert(source_nodes@.take(i + 1).drop_last() =~= source_nodes@.take(i as int));
            assert(source_nodes@.take(i + 1).last() == *n);
        }
        if contains_id(node_ids, &n.id) {
            if contains_id(target_ids, &n.id) {
                dup = dup + 1;
            } else {
                let mut c = n.duplicate();
                c.group_id = target_group;
                ins.push(c);
            }
        }
        i = i + 1;
    }
    assert(source_nodes@.take(source_nodes@.len() as int) =~= source_nodes@);
    let k = ins.len();
    (ins, k, dup)
}

} // verus!
