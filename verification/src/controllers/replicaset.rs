//! Keeps the number of pods of a replica set at the desired one.
use vstd::prelude::*;
use crate::controllers::manager::Change;
use crate::controllers::selector;
use crate::controllers::selector::labels_match;
use crate::protocol::meta::{ObjectMeta, ObjectMetaView, OwnerReference, OwnerReferenceView, ResourceKind};
use crate::protocol::pod;
use crate::protocol::pod::{PodPhase, PodStatus, PodTask, PodTaskView};
use crate::protocol::value::Value;
use crate::protocol::workload::{ReplicaSet, ReplicaSetStatus};
use crate::random;
use crate::random::{name_step, new_uid};
use crate::seqs;
use crate::text;
use crate::text::{holds_text, str_eq};

verus! {

/// The controller of replica sets.
pub struct ReplicaSetController;

/// What a reconciliation does. Pods are named by their position in the list of pods.
#[derive(Debug)]
pub struct ReplicaSetPlan {
    /// Pods without an owner that become owned by the replica set.
    pub adopt: Vec<usize>,
    /// The number of pods to make.
    pub create: usize,
    /// Pods to delete.
    pub delete: Vec<usize>,
    /// The status of the replica set.
    pub status: ReplicaSetStatus,
}

/// Whether the replica set's selector chooses the pod, in the same namespace.
pub open spec fn chooses(rs: ReplicaSet, p: PodTask) -> bool {
    rs.metadata.namespace@ == p.metadata.namespace@ && selector::selects(
        rs.spec.selector.deep_view(),
        p.metadata.labels@,
    )
}

/// Whether the reference names the replica set by its identifier.
pub open spec fn names_set(o: OwnerReference, rs: ReplicaSet) -> bool {
    o.kind == ResourceKind::ReplicaSet && o.uid == rs.metadata.uid
}

/// Whether the reference names the replica set by its identifier, or as a controller by its
/// name.
pub open spec fn may_name_set(o: OwnerReference, rs: ReplicaSet) -> bool {
    o.kind == ResourceKind::ReplicaSet && (o.uid == rs.metadata.uid || (o.controller && o.name@
        == rs.metadata.name@))
}

/// Whether the pod has the replica set among its owners.
pub open spec fn owned_by(rs: ReplicaSet, p: PodTask) -> bool {
    p.metadata.owner_references matches Some(v) && exists|i: int|
        0 <= i < v@.len() && names_set(#[trigger] v@[i], rs)
}

/// Whether the pod has no owners, or may be taken for one of the replica set's.
pub open spec fn adoptable(rs: ReplicaSet, p: PodTask) -> bool {
    match p.metadata.owner_references {
        Some(v) => exists|i: int| 0 <= i < v@.len() && may_name_set(#[trigger] v@[i], rs),
        None => true,
    }
}

/// The pods that the replica set owns.
pub open spec fn is_owned(rs: ReplicaSet, pods: Seq<PodTask>) -> spec_fn(usize) -> bool {
    |i: usize| chooses(rs, pods[i as int]) && owned_by(rs, pods[i as int])
}

/// The pods that the replica set adopts.
pub open spec fn is_orphan(rs: ReplicaSet, pods: Seq<PodTask>) -> spec_fn(usize) -> bool {
    |i: usize|
        chooses(rs, pods[i as int]) && !owned_by(rs, pods[i as int]) && adoptable(
            rs,
            pods[i as int],
        )
}

pub open spec fn has_no_ip(pods: Seq<PodTask>) -> spec_fn(usize) -> bool {
    |i: usize| pods[i as int].status.pod_ip is None
}

pub open spec fn has_ip(pods: Seq<PodTask>) -> spec_fn(usize) -> bool {
    |i: usize| pods[i as int].status.pod_ip is Some
}

/// The positions below `n`, in order.
pub open spec fn positions(n: nat) -> Seq<usize> {
    Seq::new(n, |i: int| i as usize)
}

/// The pods of the replica set: the owned ones and then the adopted ones.
pub open spec fn members(rs: ReplicaSet, pods: Seq<PodTask>) -> Seq<usize> {
    positions(pods.len()).filter(is_owned(rs, pods)) + positions(pods.len()).filter(
        is_orphan(rs, pods),
    )
}

/// The members in the order in which they are deleted: those without an address first.
pub open spec fn deletion_order(rs: ReplicaSet, pods: Seq<PodTask>) -> Seq<usize> {
    members(rs, pods).filter(has_no_ip(pods)) + members(rs, pods).filter(has_ip(pods))
}

/// The owner reference of a pod of the replica set.
pub open spec fn owner_of(rs: ReplicaSet) -> OwnerReferenceView {
    OwnerReferenceView {
        api_version: rs.api_version@,
        kind: ResourceKind::ReplicaSet,
        name: rs.metadata.name@,
        uid: rs.metadata.uid,
        controller: true,
        block_owner_deletion: Some(true),
    }
}

/// A new pod of the replica set.
pub open spec fn new_pod_view(rs: ReplicaSet, name: Seq<char>, uid: u128) -> PodTaskView {
    let t = rs.spec.template.deep_view();
    PodTaskView {
        api_version: "v1"@,
        kind: "Pod"@,
        metadata: ObjectMetaView {
            name,
            uid,
            labels: t.metadata.labels.union_prefer_right(rs.spec.selector.match_labels@),
            owner_references: Some(seq![owner_of(rs)]),
            ..t.metadata
        },
        spec: t.spec,
        status: pod::new_status(),
    }
}

fn owner_reference(rs: &ReplicaSet) -> (r: OwnerReference)
    ensures
        r.deep_view() == owner_of(*rs),
{
    OwnerReference {
        api_version: rs.api_version.clone(),
        kind: ResourceKind::ReplicaSet,
        name: rs.metadata.name.clone(),
        uid: rs.metadata.uid,
        controller: true,
        block_owner_deletion: Some(true),
    }
}

fn is_owned_by(rs: &ReplicaSet, pod: &PodTask) -> (r: bool)
    ensures
        r == owned_by(*rs, *pod),
{
    match &pod.metadata.owner_references {
        Some(owners) => {
            for i in 0..owners.len()
                invariant
                    pod.metadata.owner_references == Some(*owners),
                    forall|j: int| 0 <= j < i ==> !names_set(#[trigger] owners@[j], *rs),
            {
                if owners[i].kind == ResourceKind::ReplicaSet && owners[i].uid == rs.metadata.uid {
                    proof {
                        let v = pod.metadata.owner_references->0;
                        assert(v@ == owners@);
                        assert(names_set(v@[i as int], *rs));
                    }
                    return true;
                }
            }
            false
        },
        None => false,
    }
}

impl ReplicaSetController {
    /// Match selector: supports MatchLabels and MatchExpressions.
    pub fn selector_match(rs: &ReplicaSet, pod: &PodTask) -> (r: bool)
        ensures
            r == chooses(*rs, *pod),
    {
        str_eq(rs.metadata.namespace.as_str(), pod.metadata.namespace.as_str()) && labels_match(
            &rs.spec.selector,
            &pod.metadata.labels,
        )
    }

    /// Whether the pod has no owners, or may be taken for one of the replica set's.
    pub fn owns_or_can_adopt_pod(rs: &ReplicaSet, pod: &PodTask) -> (r: bool)
        ensures
            r == adoptable(*rs, *pod),
    {
        match &pod.metadata.owner_references {
            Some(owners) => {
                for i in 0..owners.len()
                    invariant
                        pod.metadata.owner_references == Some(*owners),
                        forall|j: int| 0 <= j < i ==> !may_name_set(#[trigger] owners@[j], *rs),
                {
                    let o = &owners[i];
                    if o.kind == ResourceKind::ReplicaSet && (o.uid == rs.metadata.uid || (
                    o.controller && str_eq(o.name.as_str(), rs.metadata.name.as_str()))) {
                        proof {
                            let v = pod.metadata.owner_references->0;
                            assert(v@ == owners@);
                            assert(may_name_set(v@[i as int], *rs));
                        }
                        return true;
                    }
                }
                false
            },
            None => true,
        }
    }

    /// Generate a unique pod name based on base name and random suffix: the name with the suffix
    /// that was drawn, unless a stored pod has it. Then there is none, and another suffix is
    /// drawn.
    pub fn generate_unique_name(base: &str, drawn: u32, taken: bool) -> (r: Option<String>)
        ensures
            text::opt_text(r) == random::tried(base@, drawn, taken),
    {
        name_step(base, drawn, taken)
    }

    /// Reconcile given ReplicaSet: which pods to adopt, how many to make and which to delete,
    /// and the status. All matching pods count as ready.
    pub fn reconcile(rs: &ReplicaSet, pods: &Vec<PodTask>) -> (plan: ReplicaSetPlan)
        requires
            pods@.len() <= i32::MAX,
            pods@.len() - rs.spec.replicas <= i32::MAX,
        ensures
            ({
                let m = members(*rs, pods@);
                let n = m.len() as int;
                let desired = rs.spec.replicas as int;
                &&& plan.adopt@ == positions(pods@.len()).filter(is_orphan(*rs, pods@))
                &&& plan.create == if n < desired {
                    desired - n
                } else {
                    0
                }
                &&& plan.delete@ == if n > desired {
                    let order = deletion_order(*rs, pods@);
                    if n - desired <= order.len() {
                        order.take(n - desired)
                    } else {
                        order
                    }
                } else {
                    Seq::<usize>::empty()
                }
                &&& plan.status.replicas == n
                &&& plan.status.fully_labeled_replicas == n
                &&& plan.status.ready_replicas == n
                &&& plan.status.available_replicas == n
            }),
    {
        let ghost all = positions(pods@.len());
        let ghost po = is_owned(*rs, pods@);
        let ghost pa = is_orphan(*rs, pods@);
        let mut matching: Vec<usize> = Vec::new();
        let mut adopt: Vec<usize> = Vec::new();
        proof {
            seqs::lemma_filter_none(all, po);
            seqs::lemma_filter_none(all, pa);
        }
        for i in 0..pods.len()
            invariant
                all == positions(pods@.len()),
                po == is_owned(*rs, pods@),
                pa == is_orphan(*rs, pods@),
                matching@ == all.take(i as int).filter(po),
                adopt@ == all.take(i as int).filter(pa),
        {
            proof {
                seqs::lemma_filter_take(all, po, i as int);
                seqs::lemma_filter_take(all, pa, i as int);
                assert(all[i as int] == i);
            }
            if ReplicaSetController::selector_match(rs, &pods[i]) {
                if is_owned_by(rs, &pods[i]) {
                    matching.push(i);
                } else if ReplicaSetController::owns_or_can_adopt_pod(rs, &pods[i]) {
                    adopt.push(i);
                }
            }
        }
        let ghost owned = matching@;
        for i in 0..adopt.len()
            invariant
                matching@ == owned + adopt@.take(i as int),
        {
            matching.push(adopt[i]);
            assert(adopt@.take(i as int + 1) =~= adopt@.take(i as int).push(adopt@[i as int]));
        }
        assert(adopt@.take(adopt@.len() as int) =~= adopt@);
        assert(matching@ =~= members(*rs, pods@));
        proof {
            lemma_members_fit(*rs, pods@);
        }
        let actual: i32 = matching.len() as i32;
        let desired: i32 = rs.spec.replicas;
        let mut create: usize = 0;
        let mut delete: Vec<usize> = Vec::new();
        if actual < desired {
            create = (desired - actual) as usize;
        } else if actual > desired {
            let surplus: usize = (actual - desired) as usize;
            delete = deletion_sequence(rs, pods, &matching);
            if surplus < delete.len() {
                delete.truncate(surplus);
            } else {
                let ghost order = deletion_order(*rs, pods@);
                assert(order.take(order.len() as int) =~= order);
            }
        }
        ReplicaSetPlan {
            adopt,
            create,
            delete,
            status: ReplicaSetStatus {
                replicas: actual,
                fully_labeled_replicas: actual,
                ready_replicas: actual,
                available_replicas: actual,
            },
        }
    }

    /// Makes the replica set the owner of a pod.
    pub fn adopt_pod(rs: &ReplicaSet, pod: &mut PodTask)
        ensures
            final(pod).metadata.owner_references.deep_view() == Some(seq![owner_of(*rs)]),
            *final(pod) == (PodTask {
                metadata: ObjectMeta {
                    owner_references: final(pod).metadata.owner_references,
                    ..old(pod).metadata
                },
                ..*old(pod)
            }),
    {
        let mut v: Vec<OwnerReference> = Vec::new();
        v.push(owner_reference(rs));
        assert(v.deep_view() =~= seq![owner_of(*rs)]);
        pod.metadata.owner_references = Some(v);
    }

    /// The pod that the template stands for, with a name and an identifier of its own, the
    /// selector's labels, and the replica set as its owner.
    pub fn pod_from_template(rs: &ReplicaSet, name: String, uid: u128) -> (pod: PodTask)
        ensures
            pod.deep_view() == new_pod_view(*rs, name@, uid),
    {
        let mut metadata = rs.spec.template.metadata.copy();
        let ghost before = metadata.deep_view();
        metadata.name = name;
        metadata.uid = uid;
        metadata.labels.merge(&rs.spec.selector.match_labels);
        let mut v: Vec<OwnerReference> = Vec::new();
        v.push(owner_reference(rs));
        assert(v.deep_view() =~= seq![owner_of(*rs)]);
        metadata.owner_references = Some(v);
        PodTask {
            api_version: "v1".to_owned(),
            kind: "Pod".to_owned(),
            metadata,
            spec: rs.spec.template.spec.copy(),
            status: PodStatus::fresh(),
        }
    }

    /// A new pod of the replica set under the given name, with a fresh identifier.
    pub fn new_pod(rs: &ReplicaSet, name: String) -> (pod: PodTask)
        ensures
            exists|uid: u128| pod.deep_view() == #[trigger] new_pod_view(*rs, name@, uid),
    {
        let uid = new_uid();
        ReplicaSetController::pod_from_template(rs, name, uid)
    }

    /// Whether a change of a replica set calls for a reconciliation: an addition does, an
    /// update does when the spec changed, a deletion does not.
    pub fn should_reconcile(change: &Change<ReplicaSet>) -> (r: bool)
        ensures
            r == match change {
                Change::Add(_) => true,
                Change::Update { old, new } => old.spec.deep_view() != new.spec.deep_view(),
                Change::Delete(_) => false,
            },
    {
        match change {
            Change::Add(_) => true,
            Change::Update { old, new } => !old.spec.same(&new.spec),
            Change::Delete(_) => false,
        }
    }

    /// The kinds of objects that the controller watches.
    pub fn watch_resources() -> (r: Vec<ResourceKind>)
        ensures
            r@ == seq![ResourceKind::ReplicaSet, ResourceKind::Pod],
    {
        let mut v: Vec<ResourceKind> = Vec::new();
        v.push(ResourceKind::ReplicaSet);
        v.push(ResourceKind::Pod);
        v
    }
}

proof fn lemma_members_fit(rs: ReplicaSet, pods: Seq<PodTask>)
    ensures
        members(rs, pods).len() <= pods.len(),
        forall|i: int| 0 <= i < members(rs, pods).len() ==> #[trigger] members(rs, pods)[i] < pods.len(),
{
    let all = positions(pods.len());
    lemma_disjoint_lengths(all, is_owned(rs, pods), is_orphan(rs, pods));
    seqs::lemma_filter_members(all, is_owned(rs, pods));
    seqs::lemma_filter_members(all, is_orphan(rs, pods));
    let a = all.filter(is_owned(rs, pods));
    let b = all.filter(is_orphan(rs, pods));
    assert forall|i: int| 0 <= i < members(rs, pods).len() implies #[trigger] members(rs, pods)[i]
        < pods.len() by {
        if i < a.len() {
            assert(a.contains(a[i]));
        } else {
            assert(b.contains(b[i - a.len()]));
        }
    }
}

proof fn lemma_disjoint_lengths(s: Seq<usize>, p: spec_fn(usize) -> bool, q: spec_fn(usize) -> bool)
    requires
        forall|x: usize| #[trigger] p(x) ==> !q(x),
    ensures
        s.filter(p).len() + s.filter(q).len() <= s.len(),
    decreases s.len(),
{
    reveal(Seq::filter);
    if s.len() > 0 {
        lemma_disjoint_lengths(s.drop_last(), p, q);
    }
}

proof fn lemma_complement_lengths(
    s: Seq<usize>,
    p: spec_fn(usize) -> bool,
    q: spec_fn(usize) -> bool,
)
    requires
        forall|x: usize| #[trigger] p(x) == !q(x),
    ensures
        s.filter(p).len() + s.filter(q).len() == s.len(),
    decreases s.len(),
{
    reveal(Seq::filter);
    if s.len() > 0 {
        lemma_complement_lengths(s.drop_last(), p, q);
    }
}

/// The members in the order in which they are deleted.
fn deletion_sequence(rs: &ReplicaSet, pods: &Vec<PodTask>, matching: &Vec<usize>) -> (r: Vec<usize>)
    requires
        matching@ == members(*rs, pods@),
    ensures
        r@ == deletion_order(*rs, pods@),
        r@.len() == matching@.len(),
{
    let ghost pn = has_no_ip(pods@);
    let ghost pi = has_ip(pods@);
    let mut first: Vec<usize> = Vec::new();
    let mut last: Vec<usize> = Vec::new();
    proof {
        lemma_members_fit(*rs, pods@);
        seqs::lemma_filter_none(matching@, pn);
        seqs::lemma_filter_none(matching@, pi);
        lemma_complement_lengths(matching@, pn, pi);
    }
    for i in 0..matching.len()
        invariant
            matching@ == members(*rs, pods@),
            forall|j: int| 0 <= j < matching@.len() ==> #[trigger] matching@[j] < pods@.len(),
            pn == has_no_ip(pods@),
            pi == has_ip(pods@),
            first@ == matching@.take(i as int).filter(pn),
            last@ == matching@.take(i as int).filter(pi),
    {
        proof {
            seqs::lemma_filter_take(matching@, pn, i as int);
            seqs::lemma_filter_take(matching@, pi, i as int);
        }
        let k = matching[i];
        assert(matching@[i as int] < pods@.len());
        if pods[k].status.pod_ip.is_none() {
            first.push(k);
        } else {
            last.push(k);
        }
    }
    first.append(&mut last);
    first
}

/// Carrying out the plan brings the number of pods to the desired one: what is there, plus
/// what is made, less what is deleted.
pub proof fn law_plan_reaches_the_desired_number(
    rs: ReplicaSet,
    pods: Seq<PodTask>,
    create: int,
    delete: Seq<usize>,
)
    requires
        pods.len() <= usize::MAX,
        rs.spec.replicas >= 0,
        create == if members(rs, pods).len() < rs.spec.replicas {
            rs.spec.replicas - members(rs, pods).len()
        } else {
            0
        },
        delete == if members(rs, pods).len() > rs.spec.replicas {
            deletion_order(rs, pods).take(members(rs, pods).len() - rs.spec.replicas)
        } else {
            Seq::<usize>::empty()
        },
    ensures
        members(rs, pods).len() + create - delete.len() == rs.spec.replicas,
        delete.no_duplicates(),
        forall|x: usize| #[trigger] delete.contains(x) ==> members(rs, pods).contains(x),
{
    let m = members(rs, pods);
    let pn = has_no_ip(pods);
    let pi = has_ip(pods);
    lemma_complement_lengths(m, pn, pi);
    lemma_members_distinct(rs, pods);
    seqs::lemma_filter_distinct(m, pn);
    seqs::lemma_filter_distinct(m, pi);
    seqs::lemma_filter_members(m, pn);
    seqs::lemma_filter_members(m, pi);
    let a = m.filter(pn);
    let b = m.filter(pi);
    let order = deletion_order(rs, pods);
    assert(order.no_duplicates()) by {
        assert forall|i: int, j: int|
            0 <= i < order.len() && 0 <= j < order.len() && i != j implies order[i] != order[j] by {
            if i < a.len() {
                assert(a.contains(a[i]));
            } else {
                assert(b.contains(b[i - a.len()]));
            }
            if j < a.len() {
                assert(a.contains(a[j]));
            } else {
                assert(b.contains(b[j - a.len()]));
            }
        }
    }
    assert forall|x: usize| #[trigger] delete.contains(x) implies m.contains(x) by {
        let i = choose|i: int| 0 <= i < delete.len() && delete[i] == x;
        assert(order[i] == x);
        if i < a.len() {
            assert(a.contains(a[i]));
        } else {
            assert(b.contains(b[i - a.len()]));
        }
    }
}

/// A pod with an address is deleted only when every pod without one is.
pub proof fn law_pods_without_address_go_first(
    rs: ReplicaSet,
    pods: Seq<PodTask>,
    n: int,
    with_ip: usize,
    without_ip: usize,
)
    requires
        0 <= n <= deletion_order(rs, pods).len(),
        deletion_order(rs, pods).take(n).contains(with_ip),
        pods[with_ip as int].status.pod_ip is Some,
        members(rs, pods).contains(without_ip),
        pods[without_ip as int].status.pod_ip is None,
    ensures
        deletion_order(rs, pods).take(n).contains(without_ip),
{
    let m = members(rs, pods);
    let a = m.filter(has_no_ip(pods));
    let order = deletion_order(rs, pods);
    seqs::lemma_filter_members(m, has_no_ip(pods));
    let i = choose|i: int| 0 <= i < n && order.take(n)[i] == with_ip;
    if i < a.len() {
        assert(has_no_ip(pods)(a[i]));
    }
    assert(a.contains(without_ip));
    let j = choose|j: int| 0 <= j < a.len() && a[j] == without_ip;
    assert(order.take(n)[j] == without_ip);
}

proof fn lemma_members_distinct(rs: ReplicaSet, pods: Seq<PodTask>)
    requires
        pods.len() <= usize::MAX,
    ensures
        members(rs, pods).no_duplicates(),
{
    let all = positions(pods.len());
    assert(all.no_duplicates());
    let po = is_owned(rs, pods);
    let pa = is_orphan(rs, pods);
    seqs::lemma_filter_distinct(all, po);
    seqs::lemma_filter_distinct(all, pa);
    seqs::lemma_filter_members(all, po);
    seqs::lemma_filter_members(all, pa);
    let a = all.filter(po);
    let b = all.filter(pa);
    let m = members(rs, pods);
    assert forall|i: int, j: int| 0 <= i < m.len() && 0 <= j < m.len() && i != j implies m[i] != m[j] by {
        if i < a.len() {
            assert(a.contains(a[i]));
        } else {
            assert(b.contains(b[i - a.len()]));
        }
        if j < a.len() {
            assert(a.contains(a[j]));
        } else {
            assert(b.contains(b[j - a.len()]));
        }
    }
}

/// A pod whose only owner is the replica set is owned by it.
pub proof fn law_adopted_pods_are_owned(rs: ReplicaSet, p: PodTask)
    requires
        p.metadata.owner_references.deep_view() == Some(seq![owner_of(rs)]),
    ensures
        owned_by(rs, p),
{
    let v = p.metadata.owner_references->0;
    assert(p.metadata.owner_references.deep_view()->0 == v.deep_view());
    assert(v.deep_view().len() == 1);
    assert(v.deep_view()[0] == v@[0].deep_view());
    assert(names_set(v@[0], rs));
}

/// A pod made from the template is chosen and owned by the replica set, provided that the
/// template lies in the same namespace and its labels meet the selector's requirements.
pub proof fn law_new_pods_are_members(rs: ReplicaSet, p: PodTask, name: Seq<char>, uid: u128)
    requires
        p.deep_view() == new_pod_view(rs, name, uid),
        rs.spec.template.metadata.namespace@ == rs.metadata.namespace@,
        forall|i: int|
            0 <= i < rs.spec.selector.deep_view().match_expressions.len() ==> selector::met(
                #[trigger] rs.spec.selector.deep_view().match_expressions[i],
                p.metadata.labels@,
            ),
    ensures
        chooses(rs, p),
        owned_by(rs, p),
{
    let v = new_pod_view(rs, name, uid);
    assert(p.deep_view().metadata == v.metadata);
    assert(p.metadata.deep_view().owner_references == v.metadata.owner_references);
    law_adopted_pods_are_owned(rs, p);
    assert(p.metadata.deep_view().namespace == v.metadata.namespace);
    assert(p.metadata.deep_view().labels == v.metadata.labels);
    let sel = rs.spec.selector.match_labels@;
    assert(sel.submap_of(p.metadata.labels@));
}

/// The names of replica sets, among the first `n` owners, that were not called for yet.
pub open spec fn owners_called(
    owners: Seq<OwnerReference>,
    done: Seq<Seq<char>>,
    n: int,
) -> Seq<Seq<char>>
    decreases n,
{
    if n <= 0 {
        done
    } else {
        let rest = owners_called(owners, done, n - 1);
        let o = owners[n - 1];
        if o.kind == ResourceKind::ReplicaSet && !rest.contains(o.name@) {
            rest.push(o.name@)
        } else {
            rest
        }
    }
}

/// The names of replica sets, among the first `n`, that choose the pod and were not called
/// for yet.
pub open spec fn sets_called(
    sets: Seq<ReplicaSet>,
    p: PodTask,
    done: Seq<Seq<char>>,
    n: int,
) -> Seq<Seq<char>>
    decreases n,
{
    if n <= 0 {
        done
    } else {
        let rest = sets_called(sets, p, done, n - 1);
        let rs = sets[n - 1];
        if chooses(rs, p) && !rest.contains(rs.metadata.name@) {
            rest.push(rs.metadata.name@)
        } else {
            rest
        }
    }
}

/// Whether the pod has a replica set among its owners.
pub open spec fn has_set_owner(p: PodTask) -> bool {
    p.metadata.owner_references matches Some(v) && exists|i: int|
        0 <= i < v@.len() && (#[trigger] v@[i]).kind == ResourceKind::ReplicaSet
}

/// The names called for by one pod, after those called for before.
pub open spec fn called_by(p: PodTask, sets: Seq<ReplicaSet>, done: Seq<Seq<char>>) -> Seq<Seq<char>> {
    if has_set_owner(p) {
        owners_called(
            p.metadata.owner_references->0@,
            done,
            p.metadata.owner_references->0@.len() as int,
        )
    } else {
        sets_called(sets, p, done, sets.len() as int)
    }
}

fn set_owner_of(p: &PodTask) -> (r: bool)
    ensures
        r == has_set_owner(*p),
{
    match &p.metadata.owner_references {
        Some(v) => {
            for i in 0..v.len()
                invariant
                    p.metadata.owner_references == Some(*v),
                    forall|j: int| 0 <= j < i ==> (#[trigger] v@[j]).kind != ResourceKind::ReplicaSet,
            {
                if v[i].kind == ResourceKind::ReplicaSet {
                    return true;
                }
            }
            false
        },
        None => false,
    }
}

impl ReplicaSetController {
    /// Adds the names of the replica sets that a changed pod calls for: those among its
    /// owners, or those that choose it when it has none among them. Each name comes once.
    pub fn call_for(p: &PodTask, sets: &Vec<ReplicaSet>, names: &mut Vec<String>)
        ensures
            text::texts(final(names)@) == called_by(*p, sets@, text::texts(old(names)@)),
    {
        let ghost done = text::texts(names@);
        if set_owner_of(p) {
            match &p.metadata.owner_references {
                Some(v) => {
                    for i in 0..v.len()
                        invariant
                            text::texts(names@) == owners_called(v@, done, i as int),
                    {
                        if v[i].kind == ResourceKind::ReplicaSet && !holds_text(
                            names,
                            v[i].name.as_str(),
                        ) {
                            let ghost before = text::texts(names@);
                            names.push(v[i].name.clone());
                            assert(text::texts(names@) =~= before.push(v@[i as int].name@));
                        }
                    }
                },
                None => {},
            }
        } else {
            for i in 0..sets.len()
                invariant
                    text::texts(names@) == sets_called(sets@, *p, done, i as int),
            {
                if ReplicaSetController::selector_match(&sets[i], p) && !holds_text(
                    names,
                    sets[i].metadata.name.as_str(),
                ) {
                    let ghost before = text::texts(names@);
                    names.push(sets[i].metadata.name.clone());
                    assert(text::texts(names@) =~= before.push(sets@[i as int].metadata.name@));
                }
            }
        }
    }

    /// The replica sets to reconcile after a change of a pod. After an update both the new
    /// and the old form of the pod count, the new one first.
    pub fn handle_pod_change(change: &Change<PodTask>, sets: &Vec<ReplicaSet>) -> (names: Vec<
        String,
    >)
        ensures
            text::texts(names@) == match change {
                Change::Add(p) => called_by(*p, sets@, Seq::empty()),
                Change::Update { old, new } => called_by(
                    *old,
                    sets@,
                    called_by(*new, sets@, Seq::empty()),
                ),
                Change::Delete(p) => called_by(*p, sets@, Seq::empty()),
            },
    {
        let mut names: Vec<String> = Vec::new();
        assert(text::texts(names@) =~= Seq::<Seq<char>>::empty());
        match change {
            Change::Add(p) => ReplicaSetController::call_for(p, sets, &mut names),
            Change::Update { old, new } => {
                ReplicaSetController::call_for(new, sets, &mut names);
                ReplicaSetController::call_for(old, sets, &mut names);
            },
            Change::Delete(p) => ReplicaSetController::call_for(p, sets, &mut names),
        }
        names
    }
}

/// No replica set is called for twice by one pod.
pub proof fn law_each_set_is_called_once(p: PodTask, sets: Seq<ReplicaSet>, done: Seq<Seq<char>>)
    requires
        done.no_duplicates(),
    ensures
        called_by(p, sets, done).no_duplicates(),
{
    if has_set_owner(p) {
        let v = p.metadata.owner_references->0@;
        lemma_owners_called_distinct(v, done, v.len() as int);
    } else {
        lemma_sets_called_distinct(sets, p, done, sets.len() as int);
    }
}

proof fn lemma_owners_called_distinct(owners: Seq<OwnerReference>, done: Seq<Seq<char>>, n: int)
    requires
        done.no_duplicates(),
        n <= owners.len(),
    ensures
        owners_called(owners, done, n).no_duplicates(),
    decreases n,
{
    if n > 0 {
        lemma_owners_called_distinct(owners, done, n - 1);
    }
}

proof fn lemma_sets_called_distinct(
    sets: Seq<ReplicaSet>,
    p: PodTask,
    done: Seq<Seq<char>>,
    n: int,
)
    requires
        done.no_duplicates(),
        n <= sets.len(),
    ensures
        sets_called(sets, p, done, n).no_duplicates(),
    decreases n,
{
    if n > 0 {
        lemma_sets_called_distinct(sets, p, done, n - 1);
    }
}

/// The number of times the status of a replica set is written at most.
pub const MAX_STATUS_ATTEMPTS: u32 = 5;

/// How long it takes until a reconciliation is tried again, in milliseconds.
pub const CONFLICT_RETRY_MS: u64 = 50;

/// Whether a reconciliation is tried again after a concurrent update, with the number of
/// attempts that failed so far.
pub fn retry_after_conflict(attempts: u32) -> (r: bool)
    ensures
        r == (attempts < MAX_STATUS_ATTEMPTS),
{
    attempts < MAX_STATUS_ATTEMPTS
}

/// Whether the only owner of a pod is the replica set, as its controller, which the pod keeps from
/// being deleted before it.
pub open spec fn is_only_owner(rs: ReplicaSet, p: PodTask) -> bool {
    p.metadata.owner_references matches Some(v) && v@.len() == 1 && v@[0].kind
        == ResourceKind::ReplicaSet && v@[0].uid == rs.metadata.uid && v@[0].name@
        == rs.metadata.name@ && v@[0].api_version@ == rs.api_version@ && v@[0].controller
        && v@[0].block_owner_deletion == Some(true)
}

/// A new pod is the one that the template describes: it runs the template's containers, init
/// containers and volumes, on the node and with the restart policy and other fields of the
/// template. It has the given name, the template's namespace, annotations and labels, on top of
/// which come the pairs that the selector names; the replica set is its only owner, and it waits
/// without an address.
pub proof fn law_new_pod_is_the_one_described(rs: ReplicaSet, name: String, p: PodTask)
    requires
        call_ensures(ReplicaSetController::new_pod, (&rs, name), p),
    ensures
        pod::same_spec(p.spec, rs.spec.template.spec),
        p.spec.containers@.len() == rs.spec.template.spec.containers@.len(),
        forall|i: int|
            0 <= i < p.spec.containers@.len() ==> (#[trigger] p.spec.containers@[i]).name@
                == rs.spec.template.spec.containers@[i].name@ && p.spec.containers@[i].image@
                == rs.spec.template.spec.containers@[i].image@,
        p.api_version@ == "v1"@,
        p.kind@ == "Pod"@,
        p.metadata.name@ == name@,
        p.metadata.namespace@ == rs.spec.template.metadata.namespace@,
        p.metadata.annotations@ == rs.spec.template.metadata.annotations@,
        forall|k: Seq<char>| #[trigger]
            p.metadata.labels@.contains_key(k) <==> rs.spec.template.metadata.labels@.contains_key(k)
                || rs.spec.selector.match_labels@.contains_key(k),
        forall|k: Seq<char>| #[trigger]
            p.metadata.labels@.contains_key(k) ==> p.metadata.labels@[k]
                == if rs.spec.selector.match_labels@.contains_key(k) {
                rs.spec.selector.match_labels@[k]
            } else {
                rs.spec.template.metadata.labels@[k]
            },
        is_only_owner(rs, p),
        p.status.phase == PodPhase::Pending,
        p.status.pod_ip is None,
        p.status.message is None,
{
    let uid = choose|uid: u128| p.deep_view() == #[trigger] new_pod_view(rs, name@, uid);
    let v = new_pod_view(rs, name@, uid);
    assert(p.deep_view() == v);
    assert(p.spec.deep_view() == rs.spec.template.spec.deep_view());
    pod::lemma_same_spec(p.spec, rs.spec.template.spec);
    assert(p.metadata.deep_view() == v.metadata);
    assert(p.metadata.owner_references.deep_view() == Some(seq![owner_of(rs)]));
    lemma_only_owner(rs, p);
    assert(p.status.deep_view() == v.status);
    assert(p.status.pod_ip.deep_view() is None);
    assert(p.status.message.deep_view() is None);
}

proof fn lemma_only_owner(rs: ReplicaSet, p: PodTask)
    requires
        p.metadata.owner_references.deep_view() == Some(seq![owner_of(rs)]),
    ensures
        is_only_owner(rs, p),
{
    let o = p.metadata.owner_references->0;
    assert(p.metadata.owner_references.deep_view()->0 == o.deep_view());
    assert(o.deep_view().len() == 1);
    assert(o.deep_view()[0] == o@[0].deep_view());
}

/// The pod that the template stands for is the one that a new pod is, under the given identifier.
pub proof fn law_pod_of_the_template_is_the_one_described(
    rs: ReplicaSet,
    name: String,
    uid: u128,
    p: PodTask,
)
    requires
        call_ensures(ReplicaSetController::pod_from_template, (&rs, name, uid), p),
    ensures
        pod::same_spec(p.spec, rs.spec.template.spec),
        p.metadata.uid == uid,
        p.metadata.name@ == name@,
        p.metadata.namespace@ == rs.spec.template.metadata.namespace@,
        rs.spec.selector.match_labels@.submap_of(p.metadata.labels@),
        is_only_owner(rs, p),
        p.status.phase == PodPhase::Pending,
        p.status.pod_ip is None,
{
    let v = new_pod_view(rs, name@, uid);
    assert(p.deep_view() == v);
    assert(p.spec.deep_view() == rs.spec.template.spec.deep_view());
    pod::lemma_same_spec(p.spec, rs.spec.template.spec);
    assert(p.metadata.deep_view() == v.metadata);
    assert(p.metadata.owner_references.deep_view() == Some(seq![owner_of(rs)]));
    lemma_only_owner(rs, p);
    assert(p.status.deep_view() == v.status);
    assert(p.status.pod_ip.deep_view() is None);
}

/// A pod that is adopted has the replica set as its only owner, and is otherwise as it was.
pub proof fn law_adoption_changes_the_owner_only(rs: ReplicaSet, p: &mut PodTask)
    requires
        call_ensures(ReplicaSetController::adopt_pod, (&rs, p), ()),
    ensures
        is_only_owner(rs, *final(p)),
        final(p).spec == old(p).spec,
        final(p).status == old(p).status,
        final(p).metadata.name == old(p).metadata.name,
        final(p).metadata.namespace == old(p).metadata.namespace,
        final(p).metadata.uid == old(p).metadata.uid,
        final(p).metadata.labels == old(p).metadata.labels,
        final(p).metadata.annotations == old(p).metadata.annotations,
        final(p).metadata.deletion_timestamp == old(p).metadata.deletion_timestamp,
        final(p).metadata.finalizers == old(p).metadata.finalizers,
{
    lemma_only_owner(rs, *final(p));
}

/// Whether the replica set is among the owners of a pod, by its kind and identifier.
pub open spec fn has_as_owner(p: PodTask, rs: ReplicaSet) -> bool {
    p.metadata.owner_references matches Some(v) && exists|i: int|
        0 <= i < v@.len() && (#[trigger] v@[i]).kind == ResourceKind::ReplicaSet && v@[i].uid
            == rs.metadata.uid
}

/// Whether a pod is free for the replica set: no list of owners, or a replica set of that name
/// among them as the controller.
pub open spec fn is_free_for(p: PodTask, rs: ReplicaSet) -> bool {
    match p.metadata.owner_references {
        Some(v) => exists|i: int|
            0 <= i < v@.len() && (#[trigger] v@[i]).kind == ResourceKind::ReplicaSet && v@[i].controller
                && v@[i].name@ == rs.metadata.name@,
        None => true,
    }
}

/// Whether a pod is in the namespace of the replica set and has the labels that it asks for.
pub open spec fn is_described(p: PodTask, rs: ReplicaSet) -> bool {
    p.metadata.namespace@ == rs.metadata.namespace@ && selector::selects(
        rs.spec.selector.deep_view(),
        p.metadata.labels@,
    )
}

/// Whether a pod counts for the replica set.
pub open spec fn counts_for(p: PodTask, rs: ReplicaSet) -> bool {
    is_described(p, rs) && (has_as_owner(p, rs) || is_free_for(p, rs))
}

/// The number of pods that count for the replica set.
pub open spec fn number_of_members(pods: Seq<PodTask>, rs: ReplicaSet) -> nat
    decreases pods.len(),
{
    if pods.len() == 0 {
        0
    } else if counts_for(pods.last(), rs) {
        number_of_members(pods.drop_last(), rs) + 1
    } else {
        number_of_members(pods.drop_last(), rs)
    }
}

/// A pod counts for a replica set when it is described and owned, or described and free; the
/// second kind is what is adopted.
proof fn lemma_counts_for(p: PodTask, rs: ReplicaSet)
    ensures
        chooses(rs, p) == is_described(p, rs),
        owned_by(rs, p) == has_as_owner(p, rs),
        adoptable(rs, p) == (has_as_owner(p, rs) || is_free_for(p, rs)),
{
    match p.metadata.owner_references {
        Some(v) => {
            if owned_by(rs, p) {
                let i = choose|i: int| 0 <= i < v@.len() && names_set(#[trigger] v@[i], rs);
                assert(v@[i].kind == ResourceKind::ReplicaSet && v@[i].uid == rs.metadata.uid);
            }
            if has_as_owner(p, rs) {
                let i = choose|i: int|
                    0 <= i < v@.len() && (#[trigger] v@[i]).kind == ResourceKind::ReplicaSet && v@[i].uid
                        == rs.metadata.uid;
                assert(names_set(v@[i], rs));
                assert(may_name_set(v@[i], rs));
            }
            if is_free_for(p, rs) {
                let i = choose|i: int|
                    0 <= i < v@.len() && (#[trigger] v@[i]).kind == ResourceKind::ReplicaSet
                        && v@[i].controller && v@[i].name@ == rs.metadata.name@;
                assert(may_name_set(v@[i], rs));
            }
            if adoptable(rs, p) {
                let i = choose|i: int| 0 <= i < v@.len() && may_name_set(#[trigger] v@[i], rs);
                assert(v@[i].kind == ResourceKind::ReplicaSet);
            }
        },
        None => {},
    }
}

proof fn lemma_member_count(rs: ReplicaSet, pods: Seq<PodTask>, n: int)
    requires
        0 <= n <= pods.len() <= usize::MAX,
    ensures
        positions(pods.len()).take(n).filter(is_owned(rs, pods)).len() + positions(pods.len()).take(
            n,
        ).filter(is_orphan(rs, pods)).len() == number_of_members(pods.take(n), rs),
    decreases n,
{
    let all = positions(pods.len());
    let po = is_owned(rs, pods);
    let pa = is_orphan(rs, pods);
    if n == 0 {
        seqs::lemma_filter_none(all, po);
        seqs::lemma_filter_none(all, pa);
    } else {
        lemma_member_count(rs, pods, n - 1);
        seqs::lemma_filter_take(all, po, n - 1);
        seqs::lemma_filter_take(all, pa, n - 1);
        assert(all[n - 1] == n - 1);
        assert(pods.take(n).drop_last() =~= pods.take(n - 1));
        assert(pods.take(n).last() == pods[n - 1]);
        lemma_counts_for(pods[n - 1], rs);
    }
}

/// A reconciliation adopts the pods that are described and free and not owned yet, and no others.
/// With them and those that it owns it brings the replica set to the desired number of pods: it
/// makes those that are missing, or deletes as many members as are too many, each once, those
/// without an address before the others. The status tells the number of members.
pub proof fn law_replica_set_reaches_its_number(
    rs: ReplicaSet,
    pods: Vec<PodTask>,
    plan: ReplicaSetPlan,
)
    requires
        call_ensures(ReplicaSetController::reconcile, (&rs, &pods), plan),
        pods@.len() <= i32::MAX,
        rs.spec.replicas >= 0,
    ensures
        ({
            let there = number_of_members(pods@, rs);
            &&& there + plan.create - plan.delete@.len() == rs.spec.replicas
            &&& plan.create == 0 || plan.delete@.len() == 0
            &&& plan.status.replicas == there
            &&& plan.status.ready_replicas == there
            &&& plan.status.available_replicas == there
            &&& plan.status.fully_labeled_replicas == there
            &&& plan.delete@.no_duplicates()
            &&& forall|i: usize| #[trigger]
                plan.delete@.contains(i) ==> i < pods@.len() && counts_for(pods@[i as int], rs)
            &&& forall|i: usize| #[trigger]
                plan.adopt@.contains(i) <==> i < pods@.len() && is_described(pods@[i as int], rs)
                    && !has_as_owner(pods@[i as int], rs) && is_free_for(pods@[i as int], rs)
            &&& forall|i: usize, j: usize|
                #![trigger plan.delete@.contains(i), plan.delete@.contains(j)]
                plan.delete@.contains(i) && pods@[i as int].status.pod_ip is Some && j < pods@.len()
                    && counts_for(pods@[j as int], rs) && pods@[j as int].status.pod_ip is None
                    ==> plan.delete@.contains(j)
        }),
{
    let m = members(rs, pods@);
    let all = positions(pods@.len());
    lemma_member_count(rs, pods@, pods@.len() as int);
    assert(all.take(all.len() as int) =~= all);
    assert(pods@.take(pods@.len() as int) =~= pods@);
    let there = number_of_members(pods@, rs);
    assert(m.len() == there);
    let pn = has_no_ip(pods@);
    let pi = has_ip(pods@);
    lemma_complement_lengths(m, pn, pi);
    lemma_members_fit(rs, pods@);
    law_plan_reaches_the_desired_number(rs, pods@, plan.create as int, plan.delete@);
    seqs::lemma_filter_members(all, is_owned(rs, pods@));
    seqs::lemma_filter_members(all, is_orphan(rs, pods@));
    assert forall|i: usize| #[trigger] m.contains(i) <==> i < pods@.len() && counts_for(
        pods@[i as int],
        rs,
    ) by {
        let a = all.filter(is_owned(rs, pods@));
        let b = all.filter(is_orphan(rs, pods@));
        if i < pods@.len() {
            assert(all[i as int] == i);
            lemma_counts_for(pods@[i as int], rs);
            if a.contains(i) {
                let k = choose|k: int| 0 <= k < a.len() && a[k] == i;
                assert(m[k] == i);
            }
            if b.contains(i) {
                let k = choose|k: int| 0 <= k < b.len() && b[k] == i;
                assert(m[a.len() + k] == i);
            }
        }
        if m.contains(i) {
            let k = choose|k: int| 0 <= k < m.len() && m[k] == i;
            if k < a.len() {
                assert(a.contains(i));
            } else {
                assert(b[k - a.len()] == i);
                assert(b.contains(i));
            }
        }
    }
    assert forall|i: usize| #[trigger] plan.adopt@.contains(i) <==> i < pods@.len() && is_described(
        pods@[i as int],
        rs,
    ) && !has_as_owner(pods@[i as int], rs) && is_free_for(pods@[i as int], rs) by {
        if i < pods@.len() {
            assert(all[i as int] == i);
            lemma_counts_for(pods@[i as int], rs);
        }
    }
    assert forall|i: usize, j: usize|
        #![trigger plan.delete@.contains(i), plan.delete@.contains(j)]
        plan.delete@.contains(i) && pods@[i as int].status.pod_ip is Some && j < pods@.len()
            && counts_for(pods@[j as int], rs) && pods@[j as int].status.pod_ip is None implies plan.delete@.contains(
    j) by {
        assert(m.contains(j));
        law_pods_without_address_go_first(rs, pods@, m.len() - rs.spec.replicas, i, j);
    }
}

/// The owners of a pod, none where there is no list.
pub open spec fn owner_list(p: PodTask) -> Seq<OwnerReference> {
    match p.metadata.owner_references {
        Some(v) => v@,
        None => Seq::empty(),
    }
}

/// Whether there is a replica set among the owners.
pub open spec fn has_set_among(owners: Seq<OwnerReference>) -> bool {
    exists|i: int| 0 <= i < owners.len() && (#[trigger] owners[i]).kind == ResourceKind::ReplicaSet
}

/// Whether there is a replica set of the name among the owners.
pub open spec fn names_a_set(owners: Seq<OwnerReference>, t: Seq<char>) -> bool {
    exists|i: int|
        0 <= i < owners.len() && (#[trigger] owners[i]).kind == ResourceKind::ReplicaSet
            && owners[i].name@ == t
}

/// Whether there is a replica set of the name that describes the pod.
pub open spec fn names_a_describing_set(sets: Seq<ReplicaSet>, p: PodTask, t: Seq<char>) -> bool {
    exists|i: int|
        0 <= i < sets.len() && is_described(p, #[trigger] sets[i]) && sets[i].metadata.name@ == t
}

/// Which replica sets are called for by a pod: those among its owners, and where there are none of
/// that kind those that describe it, besides those that were called for before. No other name is
/// added.
pub proof fn law_changed_pod_calls_for_its_sets(
    p: PodTask,
    sets: Vec<ReplicaSet>,
    names: &mut Vec<String>,
)
    requires
        call_ensures(ReplicaSetController::call_for, (&p, &sets, names), ()),
    ensures
        ({
            let before = text::texts(old(names)@);
            let after = text::texts(final(names)@);
            let owners = owner_list(p);
            &&& has_set_among(owners) ==> forall|t: Seq<char>| #[trigger]
                after.contains(t) <==> before.contains(t) || names_a_set(owners, t)
            &&& !has_set_among(owners) ==> forall|t: Seq<char>| #[trigger]
                after.contains(t) <==> before.contains(t) || names_a_describing_set(sets@, p, t)
        }),
{
    let before = text::texts(old(names)@);
    if has_set_owner(p) {
        let v = p.metadata.owner_references->0@;
        lemma_owners_called(v, before, v.len() as int);
        assert(v.take(v.len() as int) =~= v);
        assert(has_set_among(v));
    } else {
        lemma_sets_called(sets@, p, before, sets@.len() as int);
        assert(sets@.take(sets@.len() as int) =~= sets@);
    }
}

proof fn lemma_owners_called(owners: Seq<OwnerReference>, done: Seq<Seq<char>>, n: int)
    requires
        0 <= n <= owners.len(),
    ensures
        forall|t: Seq<char>| #[trigger]
            owners_called(owners, done, n).contains(t) <==> done.contains(t) || names_a_set(
                owners.take(n),
                t,
            ),
    decreases n,
{
    if n > 0 {
        lemma_owners_called(owners, done, n - 1);
        let a = owners_called(owners, done, n - 1);
        let b = owners_called(owners, done, n);
        let x = owners[n - 1].name@;
        let some = owners.take(n - 1);
        let more = owners.take(n);
        assert forall|t: Seq<char>| #[trigger] b.contains(t) <==> done.contains(t) || names_a_set(
            more,
            t,
        ) by {
            lemma_push_contains(a, x, t);
            assert(a.contains(t) <==> done.contains(t) || names_a_set(some, t));
            if names_a_set(more, t) {
                let i = choose|i: int|
                    0 <= i < more.len() && (#[trigger] more[i]).kind == ResourceKind::ReplicaSet
                        && more[i].name@ == t;
                if i < n - 1 {
                    assert(some[i] == more[i]);
                }
            }
            if names_a_set(some, t) {
                let i = choose|i: int|
                    0 <= i < some.len() && (#[trigger] some[i]).kind == ResourceKind::ReplicaSet
                        && some[i].name@ == t;
                assert(more[i] == some[i]);
            }
            if b.contains(t) && !a.contains(t) {
                assert(more[n - 1].name@ == t);
            }
        }
    }
}

proof fn lemma_push_contains(s: Seq<Seq<char>>, x: Seq<char>, t: Seq<char>)
    ensures
        s.push(x).contains(t) <==> s.contains(t) || t == x,
{
    if s.contains(t) {
        let k = choose|k: int| 0 <= k < s.len() && s[k] == t;
        assert(s.push(x)[k] == t);
    }
    if t == x {
        assert(s.push(x)[s.len() as int] == t);
    }
    if s.push(x).contains(t) && t != x {
        let k = choose|k: int| 0 <= k < s.push(x).len() && s.push(x)[k] == t;
        assert(s[k] == t);
    }
}

proof fn lemma_sets_called(sets: Seq<ReplicaSet>, p: PodTask, done: Seq<Seq<char>>, n: int)
    requires
        0 <= n <= sets.len(),
    ensures
        forall|t: Seq<char>| #[trigger]
            sets_called(sets, p, done, n).contains(t) <==> done.contains(t)
                || names_a_describing_set(sets.take(n), p, t),
    decreases n,
{
    if n > 0 {
        lemma_sets_called(sets, p, done, n - 1);
        let a = sets_called(sets, p, done, n - 1);
        let b = sets_called(sets, p, done, n);
        let x = sets[n - 1].metadata.name@;
        let some = sets.take(n - 1);
        let more = sets.take(n);
        lemma_counts_for(p, sets[n - 1]);
        assert forall|t: Seq<char>| #[trigger] b.contains(t) <==> done.contains(t)
            || names_a_describing_set(more, p, t) by {
            lemma_push_contains(a, x, t);
            assert(a.contains(t) <==> done.contains(t) || names_a_describing_set(some, p, t));
            if names_a_describing_set(more, p, t) {
                let i = choose|i: int|
                    0 <= i < more.len() && is_described(p, #[trigger] more[i])
                        && more[i].metadata.name@ == t;
                if i < n - 1 {
                    assert(some[i] == more[i]);
                }
            }
            if names_a_describing_set(some, p, t) {
                let i = choose|i: int|
                    0 <= i < some.len() && is_described(p, #[trigger] some[i])
                        && some[i].metadata.name@ == t;
                assert(more[i] == some[i]);
            }
            if b.contains(t) && !a.contains(t) {
                assert(is_described(p, more[n - 1]));
            }
        }
    }
}

/// A pod without owners may be adopted, and one with owners only if one of them is the set, by its
/// identifier or as the controller of its name.
pub proof fn law_pods_of_others_are_not_adopted(rs: ReplicaSet, pod: PodTask, r: bool)
    requires
        call_ensures(ReplicaSetController::owns_or_can_adopt_pod, (&rs, &pod), r),
    ensures
        pod.metadata.owner_references is None ==> r,
        pod.metadata.owner_references matches Some(v) ==> (r <==> exists|i: int|
            0 <= i < v@.len() && (#[trigger] v@[i]).kind == ResourceKind::ReplicaSet && (v@[i].uid
                == rs.metadata.uid || (v@[i].controller && v@[i].name@ == rs.metadata.name@))),
{
    if let Some(v) = pod.metadata.owner_references {
        if exists|i: int| 0 <= i < v@.len() && may_name_set(#[trigger] v@[i], rs) {
            let i = choose|i: int| 0 <= i < v@.len() && may_name_set(#[trigger] v@[i], rs);
            assert(v@[i].kind == ResourceKind::ReplicaSet);
        }
        if exists|i: int|
            0 <= i < v@.len() && (#[trigger] v@[i]).kind == ResourceKind::ReplicaSet && (v@[i].uid
                == rs.metadata.uid || (v@[i].controller && v@[i].name@ == rs.metadata.name@)) {
            let i = choose|i: int|
                0 <= i < v@.len() && (#[trigger] v@[i]).kind == ResourceKind::ReplicaSet && (
                v@[i].uid == rs.metadata.uid || (v@[i].controller && v@[i].name@
                    == rs.metadata.name@));
            assert(may_name_set(v@[i], rs));
        }
    }
}

/// A set is reconciled when it is new or its specification changed.
pub proof fn law_changed_set_is_reconciled(a: ReplicaSet, b: ReplicaSet, x: bool, y: bool, z: bool)
    requires
        call_ensures(ReplicaSetController::should_reconcile, (&Change::Add(b),), x),
        call_ensures(
            ReplicaSetController::should_reconcile,
            (&Change::Update { old: a, new: b },),
            y,
        ),
        call_ensures(ReplicaSetController::should_reconcile, (&Change::Delete(b),), z),
    ensures
        x && !z,
        a.spec.replicas != b.spec.replicas ==> y,
        y <==> a.spec.deep_view() != b.spec.deep_view(),
{
}

} // verus!
