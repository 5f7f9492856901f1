//! Watches the heartbeats of nodes.
use vstd::prelude::*;
use crate::clock;
use crate::clock::{time_since, to_rfc3339, NANOS_PER_SEC};
use crate::protocol::node::{
    Node, NodeCondition, NodeConditionType, NodeSpec, NodeStatus, Taint, TaintEffect, TaintKey,
};
use crate::protocol::pod::PodTask;
use crate::protocol::workload::ConditionStatus;
use crate::text;
use crate::text::str_eq;

verus! {

/// How long a heartbeat lasts, in seconds.
pub const GRACE_SECONDS: i64 = 50;

/// How often heartbeats are looked at, in seconds.
pub const INTERVAL_SECONDS: u64 = 10;

/// The taint that a condition stands for, if any.
pub open spec fn taint_of(c: NodeCondition) -> Option<Taint> {
    match c.condition_type {
        NodeConditionType::Ready => if c.status == ConditionStatus::True {
            None
        } else {
            Some(Taint { key: TaintKey::NodeNotReady, effect: TaintEffect::NoExecute })
        },
        NodeConditionType::MemoryPressure => if c.status == ConditionStatus::True {
            Some(Taint { key: TaintKey::NodeMemoryPressure, effect: TaintEffect::NoSchedule })
        } else {
            None
        },
        NodeConditionType::DiskPressure => if c.status == ConditionStatus::True {
            Some(Taint { key: TaintKey::NodeDiskPressure, effect: TaintEffect::NoSchedule })
        } else {
            None
        },
        NodeConditionType::NetworkUnavailable => if c.status == ConditionStatus::True {
            Some(Taint { key: TaintKey::NodeNetworkUnavailable, effect: TaintEffect::NoSchedule })
        } else {
            None
        },
        NodeConditionType::PIDPressure => None,
    }
}

/// The taints that the first `n` conditions stand for.
pub open spec fn taints_of(conditions: Seq<NodeCondition>, n: int) -> Seq<Taint>
    decreases n,
{
    if n <= 0 {
        Seq::empty()
    } else {
        match taint_of(conditions[n - 1]) {
            Some(t) => taints_of(conditions, n - 1).push(t),
            None => taints_of(conditions, n - 1),
        }
    }
}

fn condition_taint(c: &NodeCondition) -> (r: Option<Taint>)
    ensures
        r == taint_of(*c),
{
    match c.condition_type {
        NodeConditionType::Ready => if c.status == ConditionStatus::True {
            None
        } else {
            Some(Taint { key: TaintKey::NodeNotReady, effect: TaintEffect::NoExecute })
        },
        NodeConditionType::MemoryPressure => if c.status == ConditionStatus::True {
            Some(Taint { key: TaintKey::NodeMemoryPressure, effect: TaintEffect::NoSchedule })
        } else {
            None
        },
        NodeConditionType::DiskPressure => if c.status == ConditionStatus::True {
            Some(Taint { key: TaintKey::NodeDiskPressure, effect: TaintEffect::NoSchedule })
        } else {
            None
        },
        NodeConditionType::NetworkUnavailable => if c.status == ConditionStatus::True {
            Some(Taint { key: TaintKey::NodeNetworkUnavailable, effect: TaintEffect::NoSchedule })
        } else {
            None
        },
        NodeConditionType::PIDPressure => None,
    }
}

/// The taints that conditions stand for.
pub fn convert_conditions_to_taints(conditions: &Vec<NodeCondition>) -> (r: Vec<Taint>)
    ensures
        r@ == taints_of(conditions@, conditions@.len() as int),
{
    let mut taints: Vec<Taint> = Vec::new();
    for i in 0..conditions.len()
        invariant
            taints@ == taints_of(conditions@, i as int),
    {
        if let Some(t) = condition_taint(&conditions[i]) {
            taints.push(t);
        }
    }
    taints
}

/// The position of the first condition that tells whether the node is ready, at or after
/// `from`.
pub open spec fn ready_at(conditions: Seq<NodeCondition>, from: int) -> int
    decreases conditions.len() - from,
{
    if from < 0 || from >= conditions.len() {
        conditions.len() as int
    } else if conditions[from].condition_type == NodeConditionType::Ready {
        from
    } else {
        ready_at(conditions, from + 1)
    }
}

fn find_ready(conditions: &Vec<NodeCondition>) -> (r: usize)
    ensures
        r == ready_at(conditions@, 0),
        r <= conditions@.len(),
        r < conditions@.len() ==> conditions@[r as int].condition_type == NodeConditionType::Ready,
{
    let mut i: usize = 0;
    while i < conditions.len()
        invariant
            i <= conditions@.len(),
            ready_at(conditions@, 0) == ready_at(conditions@, i as int),
        decreases conditions@.len() - i,
    {
        if conditions[i].condition_type == NodeConditionType::Ready {
            return i;
        }
        i = i + 1;
    }
    i
}

/// Whether the conditions are as before but for the one that tells whether the node is ready,
/// which has another status and the time of a heartbeat.
pub open spec fn ready_changed(
    before: Seq<NodeCondition>,
    after: Seq<NodeCondition>,
    status: ConditionStatus,
    now: Seq<char>,
) -> bool {
    let i = ready_at(before, 0);
    &&& after.len() == before.len()
    &&& forall|k: int| 0 <= k < before.len() && k != i ==> #[trigger] after[k] == before[k]
    &&& i < before.len() ==> after[i].condition_type == NodeConditionType::Ready && after[i].status
        == status && text::opt_text(after[i].last_heartbeat_time) == Some(now)
}

/// Whether a node is as before but for its heartbeat at a time: it has the status, with that time,
/// and the taints that follow from it.
pub open spec fn beats(before: Node, after: Node, status: NodeStatus, now: Seq<char>) -> bool {
    let i = ready_at(status.conditions@, 0);
    let ready = if i < status.conditions@.len() {
        status.conditions@[i].status
    } else {
        ConditionStatus::Unknown
    };
    &&& ready_changed(status.conditions@, after.status.conditions@, ready, now)
    &&& after.spec.taints@ == taints_of(
        after.status.conditions@,
        after.status.conditions@.len() as int,
    )
    &&& after == (Node {
        status: NodeStatus { conditions: after.status.conditions, ..status },
        spec: NodeSpec { taints: after.spec.taints, ..before.spec },
        ..before
    })
}

/// Takes the heartbeat of a node, at a time given as text: its status, with that time, and the
/// taints that follow from it.
pub fn handle_heartbeat(node: &mut Node, status: NodeStatus, now: String)
    ensures
        beats(*old(node), *final(node), status, now@),
{
    node.status = status;
    let i = find_ready(&node.status.conditions);
    if i < node.status.conditions.len() {
        let c = NodeCondition {
            condition_type: node.status.conditions[i].condition_type,
            status: node.status.conditions[i].status,
            last_heartbeat_time: Some(now),
        };
        node.status.conditions.set(i, c);
    }
    let taints = convert_conditions_to_taints(&node.status.conditions);
    node.spec.taints = taints;
}

/// Whether more time has gone by than a heartbeat lasts. A time that cannot be told, or that
/// lies ahead, counts so.
pub open spec fn too_long(elapsed: Option<int>, grace: i64) -> bool {
    match elapsed {
        None => true,
        Some(d) => d < 0 || d > grace * NANOS_PER_SEC,
    }
}

/// Whether more time has gone by, in nanoseconds, than a heartbeat lasts, in seconds.
pub fn is_expired(elapsed: Option<i128>, grace: i64) -> (r: bool)
    ensures
        r == too_long(
            match elapsed {
                Some(d) => Some(d as int),
                None => None,
            },
            grace,
        ),
{
    match elapsed {
        None => true,
        Some(d) => d < 0 || d > grace as i128 * NANOS_PER_SEC,
    }
}

/// Whether a node is to be given up: it is said to be ready or not, on a heartbeat that has
/// expired.
pub open spec fn times_out(conditions: Seq<NodeCondition>, secs: i64, nanos: u32, grace: i64) -> bool {
    let i = ready_at(conditions, 0);
    i < conditions.len() && conditions[i].status != ConditionStatus::Unknown && (
    match conditions[i].last_heartbeat_time {
        None => true,
        Some(t) => too_long(clock::time_between(t@, secs, nanos), grace),
    })
}

/// Whether a node is as before but for being given up at a time: nobody knows whether it is
/// ready.
pub open spec fn given_up(before: Node, after: Node, now: Seq<char>) -> bool {
    &&& ready_changed(
        before.status.conditions@,
        after.status.conditions@,
        ConditionStatus::Unknown,
        now,
    )
    &&& after.spec.taints@ == taints_of(
        after.status.conditions@,
        after.status.conditions@.len() as int,
    )
    &&& after == (Node {
        status: NodeStatus { conditions: after.status.conditions, ..before.status },
        spec: NodeSpec { taints: after.spec.taints, ..before.spec },
        ..before
    })
}

/// Gives up a node whose heartbeat has expired, at a time given in seconds and nanoseconds
/// since the epoch: whether it was given up.
pub fn process_heartbeat_timeout(node: &mut Node, grace: i64, secs: i64, nanos: u32) -> (r: bool)
    requires
        clock::rfc3339_text(secs, nanos) is Some,
    ensures
        r == times_out(old(node).status.conditions@, secs, nanos, grace),
        !r ==> *final(node) == *old(node),
        r ==> given_up(*old(node), *final(node), clock::rfc3339_text(secs, nanos)->0),
{
    let i = find_ready(&node.status.conditions);
    if i >= node.status.conditions.len() {
        return false;
    }
    if node.status.conditions[i].status == ConditionStatus::Unknown {
        return false;
    }
    let expired = match &node.status.conditions[i].last_heartbeat_time {
        None => true,
        Some(t) => is_expired(time_since(t.as_str(), secs, nanos), grace),
    };
    if !expired {
        return false;
    }
    let now = to_rfc3339(secs, nanos);
    let c = NodeCondition {
        condition_type: NodeConditionType::Ready,
        status: ConditionStatus::Unknown,
        last_heartbeat_time: now,
    };
    node.status.conditions.set(i, c);
    let taints = convert_conditions_to_taints(&node.status.conditions);
    node.spec.taints = taints;
    true
}

/// Gives up a node whose heartbeat has expired, when the time is one that can be written:
/// whether it was given up.
pub fn check_heartbeat(node: &mut Node, grace: i64, secs: i64, nanos: u32) -> (r: bool)
    ensures
        r == (clock::rfc3339_text(secs, nanos) is Some && times_out(
            old(node).status.conditions@,
            secs,
            nanos,
            grace,
        )),
        !r ==> *final(node) == *old(node),
        r ==> given_up(*old(node), *final(node), clock::rfc3339_text(secs, nanos)->0),
{
    if to_rfc3339(secs, nanos).is_none() {
        return false;
    }
    process_heartbeat_timeout(node, grace, secs, nanos)
}

/// Whether a pod is evicted from a node that is not ready: it runs there and does not tolerate
/// that.
pub open spec fn is_evicted(pod: PodTask, node_id: Seq<char>, tolerates: bool) -> bool {
    (pod.spec.node_name matches Some(n) && n@ == node_id) && !tolerates
}

/// The names of the pods, among the first `n`, that are evicted from a node.
pub open spec fn evicted(pods: Seq<(PodTask, bool)>, node_id: Seq<char>, n: int) -> Seq<Seq<char>>
    decreases n,
{
    if n <= 0 {
        Seq::empty()
    } else {
        let rest = evicted(pods, node_id, n - 1);
        if is_evicted(pods[n - 1].0, node_id, pods[n - 1].1) {
            rest.push(pods[n - 1].0.metadata.name@)
        } else {
            rest
        }
    }
}

/// The names of the pods that are evicted from a node that is not ready. With each pod comes
/// whether it tolerates that.
pub fn evict_pods_for_node(node_id: &str, pods: &Vec<(PodTask, bool)>) -> (r: Vec<String>)
    ensures
        text::texts(r@) == evicted(pods@, node_id@, pods@.len() as int),
{
    let mut out: Vec<String> = Vec::new();
    assert(text::texts(out@) =~= Seq::<Seq<char>>::empty());
    for i in 0..pods.len()
        invariant
            text::texts(out@) == evicted(pods@, node_id@, i as int),
    {
        let (pod, tolerates) = &pods[i];
        let here = match &pod.spec.node_name {
            Some(n) => str_eq(n.as_str(), node_id),
            None => false,
        };
        if here && !*tolerates {
            let ghost before = text::texts(out@);
            out.push(pod.metadata.name.clone());
            assert(text::texts(out@) =~= before.push(pods@[i as int].0.metadata.name@));
        }
    }
    out
}

/// A node that was given up carries the taint that evicts pods, and is not given up again.
pub proof fn law_given_up_nodes_are_tainted(
    before: Seq<NodeCondition>,
    after: Seq<NodeCondition>,
    now: Seq<char>,
    secs: i64,
    nanos: u32,
    grace: i64,
)
    requires
        ready_changed(before, after, ConditionStatus::Unknown, now),
        ready_at(before, 0) < before.len(),
    ensures
        taints_of(after, after.len() as int).contains(
            Taint { key: TaintKey::NodeNotReady, effect: TaintEffect::NoExecute },
        ),
        !times_out(after, secs, nanos, grace),
{
    let i = ready_at(before, 0);
    lemma_ready_at(before, 0);
    lemma_taint_kept(after, i, after.len() as int);
    lemma_ready_stays(before, after, 0);
}

proof fn lemma_ready_at(c: Seq<NodeCondition>, from: int)
    requires
        0 <= from <= c.len(),
    ensures
        from <= ready_at(c, from) <= c.len(),
    decreases c.len() - from,
{
    if from < c.len() && c[from].condition_type != NodeConditionType::Ready {
        lemma_ready_at(c, from + 1);
    }
}

proof fn lemma_ready_stays(before: Seq<NodeCondition>, after: Seq<NodeCondition>, from: int)
    requires
        0 <= from <= ready_at(before, 0),
        ready_at(before, from) == ready_at(before, 0),
        ready_at(before, 0) < before.len(),
        after.len() == before.len(),
        forall|k: int|
            0 <= k < before.len() && k != ready_at(before, 0) ==> #[trigger] after[k] == before[k],
        after[ready_at(before, 0)].condition_type == NodeConditionType::Ready,
    ensures
        ready_at(after, from) == ready_at(before, 0),
    decreases before.len() - from,
{
    if from < ready_at(before, 0) {
        assert(after[from] == before[from]);
        assert(before[from].condition_type != NodeConditionType::Ready);
        lemma_ready_stays(before, after, from + 1);
    }
}

proof fn lemma_taint_kept(c: Seq<NodeCondition>, i: int, n: int)
    requires
        0 <= i < n <= c.len(),
        taint_of(c[i]) is Some,
    ensures
        taints_of(c, n).contains(taint_of(c[i])->0),
    decreases n,
{
    let t = taint_of(c[i])->0;
    if i == n - 1 {
        let s = taints_of(c, n);
        assert(s[s.len() - 1] == t);
    } else {
        lemma_taint_kept(c, i, n - 1);
        let s = taints_of(c, n - 1);
        let k = choose|k: int| 0 <= k < s.len() && s[k] == t;
        assert(taints_of(c, n)[k] == t);
    }
}

/// Whether a condition of a node calls for the taint: a node that is not ready is left, and one
/// under pressure or without a network is given nothing new.
pub open spec fn calls_for(c: NodeCondition, t: Taint) -> bool {
    ||| c.condition_type == NodeConditionType::Ready && c.status != ConditionStatus::True && t.key
        == TaintKey::NodeNotReady && t.effect == TaintEffect::NoExecute
    ||| c.condition_type == NodeConditionType::MemoryPressure && c.status == ConditionStatus::True
        && t.key == TaintKey::NodeMemoryPressure && t.effect == TaintEffect::NoSchedule
    ||| c.condition_type == NodeConditionType::DiskPressure && c.status == ConditionStatus::True
        && t.key == TaintKey::NodeDiskPressure && t.effect == TaintEffect::NoSchedule
    ||| c.condition_type == NodeConditionType::NetworkUnavailable && c.status
        == ConditionStatus::True && t.key == TaintKey::NodeNetworkUnavailable && t.effect
        == TaintEffect::NoSchedule
}

/// Whether one of the conditions calls for the taint.
pub open spec fn is_called_for(conditions: Seq<NodeCondition>, t: Taint) -> bool {
    exists|i: int| 0 <= i < conditions.len() && calls_for(#[trigger] conditions[i], t)
}

proof fn lemma_taints(conditions: Seq<NodeCondition>, n: int)
    requires
        0 <= n <= conditions.len(),
    ensures
        forall|t: Taint| #[trigger]
            taints_of(conditions, n).contains(t) <==> is_called_for(conditions.take(n), t),
        taints_of(conditions, n).len() <= n,
    decreases n,
{
    if n > 0 {
        lemma_taints(conditions, n - 1);
        let a = taints_of(conditions, n - 1);
        let b = taints_of(conditions, n);
        let some = conditions.take(n - 1);
        let more = conditions.take(n);
        let c = conditions[n - 1];
        assert forall|t: Taint| #[trigger] b.contains(t) <==> is_called_for(more, t) by {
            assert(a.contains(t) <==> is_called_for(some, t));
            if is_called_for(some, t) {
                let i = choose|i: int| 0 <= i < some.len() && calls_for(#[trigger] some[i], t);
                assert(more[i] == some[i]);
                let k = choose|k: int| 0 <= k < a.len() && a[k] == t;
                assert(b[k] == t);
            }
            if is_called_for(more, t) {
                let i = choose|i: int| 0 <= i < more.len() && calls_for(#[trigger] more[i], t);
                if i < n - 1 {
                    assert(some[i] == more[i]);
                } else {
                    assert(taint_of(c) == Some(t));
                    assert(b[b.len() - 1] == t);
                }
            }
            if b.contains(t) && !a.contains(t) {
                let k = choose|k: int| 0 <= k < b.len() && b[k] == t;
                if k < a.len() {
                    assert(a[k] == t);
                }
                assert(taint_of(c) == Some(t));
                assert(calls_for(more[n - 1], t));
            }
        }
    } else {
        assert(conditions.take(0).len() == 0);
    }
}

/// The taints of a node are those that its conditions call for, and no others.
pub proof fn law_taints_are_called_for(conditions: Vec<NodeCondition>, r: Vec<Taint>)
    requires
        call_ensures(convert_conditions_to_taints, (&conditions,), r),
    ensures
        forall|t: Taint| #[trigger] r@.contains(t) <==> is_called_for(conditions@, t),
        r@.len() <= conditions@.len(),
{
    lemma_taints(conditions@, conditions@.len() as int);
    assert(conditions@.take(conditions@.len() as int) =~= conditions@);
}

proof fn lemma_first_ready(conditions: Seq<NodeCondition>, from: int)
    requires
        0 <= from <= conditions.len(),
    ensures
        from <= ready_at(conditions, from) <= conditions.len(),
        forall|k: int|
            from <= k < ready_at(conditions, from) ==> (#[trigger] conditions[k]).condition_type
                != NodeConditionType::Ready,
        ready_at(conditions, from) < conditions.len() ==> conditions[ready_at(
            conditions,
            from,
        )].condition_type == NodeConditionType::Ready,
    decreases conditions.len() - from,
{
    if from < conditions.len() && conditions[from].condition_type != NodeConditionType::Ready {
        lemma_first_ready(conditions, from + 1);
    }
}

/// Whether `i` is the place of the first condition that tells whether the node is ready.
pub open spec fn tells_readiness(conditions: Seq<NodeCondition>, i: int) -> bool {
    &&& 0 <= i < conditions.len()
    &&& conditions[i].condition_type == NodeConditionType::Ready
    &&& forall|k: int|
        0 <= k < i ==> (#[trigger] conditions[k]).condition_type != NodeConditionType::Ready
}

/// A heartbeat gives the node the reported conditions, with the time of the beat where it tells
/// whether it is ready, and the taints that they call for. A node that reports that it is ready is
/// not left for it; the name of the node and its subnet stay.
pub proof fn law_heartbeat_is_taken_over(
    node: &mut Node,
    status: NodeStatus,
    now: String,
    i: int,
)
    requires
        call_ensures(handle_heartbeat, (node, status, now), ()),
        tells_readiness(status.conditions@, i),
    ensures
        ({
            let c = final(node).status.conditions@;
            &&& c.len() == status.conditions@.len()
            &&& c[i].condition_type == NodeConditionType::Ready
            &&& c[i].status == status.conditions@[i].status
            &&& c[i].last_heartbeat_time matches Some(t) && t@ == now@
            &&& forall|k: int|
                0 <= k < c.len() && k != i ==> #[trigger] c[k] == status.conditions@[k]
            &&& forall|t: Taint| #[trigger]
                final(node).spec.taints@.contains(t) <==> is_called_for(c, t)
            &&& final(node).metadata == old(node).metadata
            &&& final(node).spec.pod_cidr == old(node).spec.pod_cidr
        }),
{
    lemma_first_ready(status.conditions@, 0);
    let c = final(node).status.conditions@;
    lemma_taints(c, c.len() as int);
    assert(c.take(c.len() as int) =~= c);
}

/// A node is given up when, and only when, it is known whether it is ready and its last heartbeat
/// is missing, unreadable, in the future, or longer ago than the time of grace. It is then no
/// longer known to be ready, and is left by its pods; nothing else of its conditions changes.
pub proof fn law_silent_node_is_given_up(
    node: &mut Node,
    grace: i64,
    secs: i64,
    nanos: u32,
    r: bool,
    i: int,
)
    requires
        call_ensures(check_heartbeat, (node, grace, secs, nanos), r),
        tells_readiness(old(node).status.conditions@, i),
        clock::rfc3339_text(secs, nanos) is Some,
    ensures
        ({
            let c = old(node).status.conditions@[i];
            let silent = match c.last_heartbeat_time {
                None => true,
                Some(t) => match clock::time_between(t@, secs, nanos) {
                    None => true,
                    Some(d) => d < 0 || d > grace * 1_000_000_000,
                },
            };
            let after = final(node).status.conditions@;
            &&& r <==> c.status != ConditionStatus::Unknown && silent
            &&& !r ==> *final(node) == *old(node)
            &&& r ==> after.len() == old(node).status.conditions@.len()
            &&& r ==> after[i].condition_type == NodeConditionType::Ready && after[i].status
                == ConditionStatus::Unknown
            &&& r ==> forall|k: int|
                0 <= k < after.len() && k != i ==> #[trigger] after[k] == old(
                    node,
                ).status.conditions@[k]
            &&& r ==> final(node).spec.taints@.contains(
                Taint { key: TaintKey::NodeNotReady, effect: TaintEffect::NoExecute },
            )
            &&& r ==> forall|t: Taint| #[trigger]
                final(node).spec.taints@.contains(t) <==> is_called_for(after, t)
            &&& final(node).metadata == old(node).metadata
        }),
{
    lemma_first_ready(old(node).status.conditions@, 0);
    assert(ready_at(old(node).status.conditions@, 0) == i);
    if r {
        let after = final(node).status.conditions@;
        lemma_taints(after, after.len() as int);
        assert(after.take(after.len() as int) =~= after);
        let t = Taint { key: TaintKey::NodeNotReady, effect: TaintEffect::NoExecute };
        assert(calls_for(after[i], t));
        assert(is_called_for(after, t));
    }
}

/// Whether a pod of the name runs on the node and does not put up with its state.
pub open spec fn has_to_go(pods: Seq<(PodTask, bool)>, node_id: Seq<char>, name: Seq<char>) -> bool {
    exists|i: int|
        0 <= i < pods.len() && (#[trigger] pods[i]).0.metadata.name@ == name && !pods[i].1 && (
        pods[i].0.spec.node_name matches Some(n) && n@ == node_id)
}

proof fn lemma_evicted(pods: Seq<(PodTask, bool)>, node_id: Seq<char>, n: int)
    requires
        0 <= n <= pods.len(),
    ensures
        forall|t: Seq<char>| #[trigger]
            evicted(pods, node_id, n).contains(t) <==> has_to_go(pods.take(n), node_id, t),
    decreases n,
{
    if n > 0 {
        lemma_evicted(pods, node_id, n - 1);
        let a = evicted(pods, node_id, n - 1);
        let b = evicted(pods, node_id, n);
        let some = pods.take(n - 1);
        let more = pods.take(n);
        assert forall|t: Seq<char>| #[trigger] b.contains(t) <==> has_to_go(more, node_id, t) by {
            assert(a.contains(t) <==> has_to_go(some, node_id, t));
            if has_to_go(some, node_id, t) {
                let i = choose|i: int|
                    0 <= i < some.len() && (#[trigger] some[i]).0.metadata.name@ == t && !some[i].1 && (
                    some[i].0.spec.node_name matches Some(x) && x@ == node_id);
                assert(more[i] == some[i]);
                let k = choose|k: int| 0 <= k < a.len() && a[k] == t;
                assert(b[k] == t);
            }
            if has_to_go(more, node_id, t) {
                let i = choose|i: int|
                    0 <= i < more.len() && (#[trigger] more[i]).0.metadata.name@ == t && !more[i].1 && (
                    more[i].0.spec.node_name matches Some(x) && x@ == node_id);
                if i < n - 1 {
                    assert(some[i] == more[i]);
                } else {
                    assert(b[b.len() - 1] == t);
                }
            }
            if b.contains(t) && !a.contains(t) {
                let k = choose|k: int| 0 <= k < b.len() && b[k] == t;
                if k < a.len() {
                    assert(a[k] == t);
                }
                assert(more[n - 1].0.metadata.name@ == t);
            }
        }
    } else {
        assert(pods.take(0).len() == 0);
    }
}

/// The pods that are evicted from a node are those that run on it and do not put up with its state.
pub proof fn law_evicted_pods_run_on_the_node(
    node_id: &str,
    pods: Vec<(PodTask, bool)>,
    r: Vec<String>,
)
    requires
        call_ensures(evict_pods_for_node, (node_id, &pods), r),
    ensures
        forall|t: Seq<char>| #[trigger]
            text::texts(r@).contains(t) <==> has_to_go(pods@, node_id@, t),
{
    lemma_evicted(pods@, node_id@, pods@.len() as int);
    assert(pods@.take(pods@.len() as int) =~= pods@);
}

/// A heartbeat is too old once it lies further back than the grace, or where its time is not known
/// or lies ahead.
pub proof fn law_old_heartbeats_expire(elapsed: Option<i128>, grace: i64, r: bool)
    requires
        call_ensures(is_expired, (elapsed, grace), r),
    ensures
        elapsed is None ==> r,
        elapsed matches Some(d) ==> (r <==> d < 0 || d > grace * 1_000_000_000),
{
}

} // verus!
