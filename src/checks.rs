//! The upgrade-readiness checks. Each takes state that was already
//! collected from the cluster and returns its findings: `None` where nothing
//! is wrong, or a non-empty list in the order of its input.
use vstd::prelude::*;

use crate::compute::{Nodegroup, NodegroupIssue};
use crate::error::CheckError;
use crate::version::{
    get_target_version, has_normal_form, minor_version, normalize_version, normalized, parse_minor_version,
    target_version,
};

verus! {

/// What a node reports of the software it runs.
#[derive(Debug)]
pub struct NodeInfo {
    pub kubelet_version: String,
    pub container_runtime_version: String,
    pub kernel_version: String,
    pub kube_proxy_version: String,
}

/// A node as the orchestrator lists it. A live node always has a name and
/// node information; their absence is a fault of the collected data.
#[derive(Debug)]
pub struct Node {
    pub name: Option<String>,
    pub node_info: Option<NodeInfo>,
}

/// A node whose kubelet runs another minor version than the control plane.
#[derive(Debug)]
pub struct NodeDetail {
    pub name: String,
    pub container_runtime: String,
    pub kernel_version: String,
    pub kube_proxy_version: String,
    pub kubelet_version: String,
    /// The kubelet version in `major.minor` form.
    pub kubernetes_version: String,
    pub control_plane_version: String,
}

/// A finding built from a list of issues: absent where the list is empty.
pub open spec fn finding_of<T>(items: Seq<T>, found: Option<Vec<T>>) -> bool {
    match found {
        None => items.len() == 0,
        Some(v) => items.len() > 0 && v@ == items,
    }
}

/// Turns a list of issues into a finding: an empty list becomes `None`.
pub fn finding<T>(items: Vec<T>) -> (r: Option<Vec<T>>)
    ensures
        finding_of(items@, r),
{
    if items.len() == 0 {
        None
    } else {
        Some(items)
    }
}

/// The minor version that a node's kubelet reports, where it has one.
pub open spec fn node_minor(n: Node) -> Option<nat> {
    match n.node_info {
        Some(info) => minor_version(info.kubelet_version@),
        None => None,
    }
}

/// The node runs a minor version other than `cp_minor`.
pub open spec fn is_skewed(cp_minor: nat, n: Node) -> bool {
    node_minor(n) is Some && node_minor(n)->0 != cp_minor
}

/// What stops the skew check at node `n`, if anything: missing node
/// information, a kubelet version without a minor number, or a skewed node
/// without a name or whose version has no `major.minor` form.
pub open spec fn node_fault(cp_minor: nat, n: Node) -> Option<CheckError> {
    match n.node_info {
        None => Some(CheckError::MissingRequiredField),
        Some(info) => match minor_version(info.kubelet_version@) {
            None => Some(CheckError::MalformedVersion),
            Some(m) => if m != cp_minor && n.name is None {
                Some(CheckError::MissingRequiredField)
            } else if m != cp_minor && !has_normal_form(info.kubelet_version@) {
                Some(CheckError::MalformedVersion)
            } else {
                None
            },
        },
    }
}

/// The fault of the first node that has one.
pub open spec fn first_fault(cp_minor: nat, nodes: Seq<Node>) -> Option<CheckError>
    decreases nodes.len(),
{
    if nodes.len() == 0 {
        None
    } else if first_fault(cp_minor, nodes.drop_last()) is Some {
        first_fault(cp_minor, nodes.drop_last())
    } else {
        node_fault(cp_minor, nodes.last())
    }
}

/// The nodes whose minor version differs from `cp_minor`, in their order.
pub open spec fn skewed_nodes(cp_minor: nat, nodes: Seq<Node>) -> Seq<Node> {
    nodes.filter(|n: Node| is_skewed(cp_minor, n))
}

/// `d` reports node `n` against control-plane version `cp`.
pub open spec fn describes(d: NodeDetail, n: Node, cp: Seq<char>) -> bool {
    let info = n.node_info->0;
    &&& d.name == n.name->0
    &&& d.container_runtime == info.container_runtime_version
    &&& d.kernel_version == info.kernel_version
    &&& d.kube_proxy_version == info.kube_proxy_version
    &&& d.kubelet_version == info.kubelet_version
    &&& d.kubernetes_version@ == normalized(info.kubelet_version@)
    &&& d.control_plane_version@ == cp
}

/// `ds` reports the nodes `ns`, one for one and in order.
pub open spec fn reports_nodes(ds: Seq<NodeDetail>, ns: Seq<Node>, cp: Seq<char>) -> bool {
    &&& ds.len() == ns.len()
    &&& forall|i: int| 0 <= i < ds.len() ==> describes(#[trigger] ds[i], ns[i], cp)
}

/// A fault in a prefix is the fault of the whole list.
pub proof fn lemma_first_fault_prefix(cp_minor: nat, nodes: Seq<Node>, k: int)
    requires
        0 <= k <= nodes.len(),
        first_fault(cp_minor, nodes.take(k)) is Some,
    ensures
        first_fault(cp_minor, nodes) == first_fault(cp_minor, nodes.take(k)),
    decreases nodes.len(),
{
    if k < nodes.len() {
        assert(nodes.drop_last().take(k) =~= nodes.take(k));
        lemma_first_fault_prefix(cp_minor, nodes.drop_last(), k);
    } else {
        assert(nodes.take(k) =~= nodes);
    }
}

/// Reports the nodes whose kubelet runs another minor version than the
/// control plane, in the order of `nodes`; `None` where every node matches.
pub fn version_skew(control_plane_version: &str, nodes: &Vec<Node>) -> (r: Result<
    Option<Vec<NodeDetail>>,
    CheckError,
>)
    ensures
        match r {
            Ok(found) => {
                &&& minor_version(control_plane_version@) is Some
                &&& first_fault(minor_version(control_plane_version@)->0, nodes@) is None
                &&& match found {
                    None => skewed_nodes(minor_version(control_plane_version@)->0, nodes@).len()
                        == 0,
                    Some(v) => {
                        &&& skewed_nodes(minor_version(control_plane_version@)->0, nodes@).len()
                            > 0
                        &&& reports_nodes(
                            v@,
                            skewed_nodes(minor_version(control_plane_version@)->0, nodes@),
                            control_plane_version@,
                        )
                    },
                }
            },
            Err(e) => {
                ||| minor_version(control_plane_version@) is None && e
                    == CheckError::MalformedVersion
                ||| minor_version(control_plane_version@) is Some && first_fault(
                    minor_version(control_plane_version@)->0,
                    nodes@,
                ) == Some(e)
            },
        },
{
    let cp_minor = parse_minor_version(control_plane_version)?;
    let ghost m = cp_minor as nat;
    let mut skewed: Vec<NodeDetail> = Vec::new();
    let mut i: usize = 0;
    while i < nodes.len()
        invariant
            i <= nodes.len(),
            minor_version(control_plane_version@) == Some(m),
            m == cp_minor,
            first_fault(m, nodes@.take(i as int)) is None,
            reports_nodes(skewed@, skewed_nodes(m, nodes@.take(i as int)), control_plane_version@),
        decreases nodes.len() - i,
    {
        let node = &nodes[i];
        let ghost before = nodes@.take(i as int);
        let ghost after = nodes@.take(i + 1);
        assert(after.drop_last() =~= before);
        assert(after.last() == *node);
        proof {
            reveal(Seq::filter);
        }
        let info = match &node.node_info {
            Some(info) => info,
            None => {
                proof {
                    lemma_first_fault_prefix(m, nodes@, i + 1);
                }
                return Err(CheckError::MissingRequiredField);
            },
        };
        let kubelet_minor = match parse_minor_version(info.kubelet_version.as_str()) {
            Ok(v) => v,
            Err(e) => {
                proof {
                    lemma_first_fault_prefix(m, nodes@, i + 1);
                }
                return Err(e);
            },
        };
        if kubelet_minor != cp_minor {
            let name = match &node.name {
                Some(name) => name.clone(),
                None => {
                    assert(node.name is None);
                    assert(node_minor(*node) == Some(kubelet_minor as nat));
                    assert(node_fault(m, *node) == Some(CheckError::MissingRequiredField));
                    proof {
                        lemma_first_fault_prefix(m, nodes@, i + 1);
                    }
                    return Err(CheckError::MissingRequiredField);
                },
            };
            let kubernetes_version = match normalize_version(info.kubelet_version.as_str()) {
                Ok(v) => v,
                Err(e) => {
                    proof {
                        lemma_first_fault_prefix(m, nodes@, i + 1);
                    }
                    return Err(e);
                },
            };
            let detail = NodeDetail {
                name,
                container_runtime: info.container_runtime_version.clone(),
                kernel_version: info.kernel_version.clone(),
                kube_proxy_version: info.kube_proxy_version.clone(),
                kubelet_version: info.kubelet_version.clone(),
                kubernetes_version,
                control_plane_version: control_plane_version.to_owned(),
            };
            skewed.push(detail);
            assert(is_skewed(m, *node));
            assert(skewed_nodes(m, after) == skewed_nodes(m, before).push(*node));
        } else {
            assert(!is_skewed(m, *node));
            assert(skewed_nodes(m, after) == skewed_nodes(m, before));
        }
        i = i + 1;
        assert(reports_nodes(skewed@, skewed_nodes(m, after), control_plane_version@));
    }
    assert(nodes@.take(i as int) =~= nodes@);
    Ok(finding(skewed))
}

/// Where no node stops the check, every node has a minor version.
pub proof fn lemma_no_fault_has_minor(cp_minor: nat, nodes: Seq<Node>)
    requires
        first_fault(cp_minor, nodes) is None,
    ensures
        forall|i: int| 0 <= i < nodes.len() ==> node_minor(#[trigger] nodes[i]) is Some,
    decreases nodes.len(),
{
    if nodes.len() > 0 {
        lemma_no_fault_has_minor(cp_minor, nodes.drop_last());
        assert forall|i: int| 0 <= i < nodes.len() implies node_minor(#[trigger] nodes[i]) is Some by {
            if i < nodes.len() - 1 {
                assert(nodes[i] == nodes.drop_last()[i]);
            }
        }
    }
}

/// The skew check reports no node exactly when every node runs the control
/// plane's minor version; otherwise each node it reports is one of the input
/// nodes on another minor version, and every such node is reported.
pub proof fn lemma_skew_exactly_mismatched(cp_minor: nat, nodes: Seq<Node>)
    requires
        first_fault(cp_minor, nodes) is None,
    ensures
        skewed_nodes(cp_minor, nodes).len() == 0 <==> forall|i: int|
            0 <= i < nodes.len() ==> node_minor(#[trigger] nodes[i]) == Some(cp_minor),
        forall|i: int|
            0 <= i < skewed_nodes(cp_minor, nodes).len() ==> nodes.contains(
                #[trigger] skewed_nodes(cp_minor, nodes)[i],
            ) && node_minor(skewed_nodes(cp_minor, nodes)[i]) != Some(cp_minor),
        forall|i: int|
            0 <= i < nodes.len() && node_minor(#[trigger] nodes[i]) != Some(cp_minor)
                ==> skewed_nodes(cp_minor, nodes).contains(nodes[i]),
{
    let pred = |n: Node| is_skewed(cp_minor, n);
    let sk = skewed_nodes(cp_minor, nodes);
    lemma_no_fault_has_minor(cp_minor, nodes);
    assert forall|i: int| 0 <= i < sk.len() implies nodes.contains(#[trigger] sk[i]) && node_minor(
        sk[i],
    ) != Some(cp_minor) by {
        nodes.lemma_filter_pred(pred, i);
        assert(sk.contains(sk[i]));
        nodes.lemma_filter_contains_rev(pred, sk[i]);
    }
    assert forall|i: int|
        0 <= i < nodes.len() && node_minor(#[trigger] nodes[i]) != Some(cp_minor) implies sk.contains(
        nodes[i],
    ) by {
        nodes.lemma_filter_contains(pred, i);
    }
    if sk.len() == 0 {
        assert forall|i: int| 0 <= i < nodes.len() implies node_minor(#[trigger] nodes[i]) == Some(
            cp_minor,
        ) by {
            if node_minor(nodes[i]) != Some(cp_minor) {
                nodes.lemma_filter_contains(pred, i);
            }
        }
    } else {
        nodes.lemma_filter_pred(pred, 0);
    }
}

/// A health issue of a managed node group, as the report shows it.
#[derive(Debug)]
pub struct NodegroupHealthIssue {
    pub name: String,
    pub code: String,
    pub message: String,
}

/// The code shown for an issue that the provider gave without one.
pub open spec fn default_issue_code() -> Seq<char> {
    "InternalFailure"@
}

/// The row (group name, code, message) that reports issue `i` of group `name`.
pub open spec fn issue_row(name: Seq<char>, i: NodegroupIssue) -> (Seq<char>, Seq<char>, Seq<char>) {
    (
        name,
        match i.code {
            Some(c) => c@,
            None => default_issue_code(),
        },
        match i.message {
            Some(m) => m@,
            None => Seq::empty(),
        },
    )
}

/// The rows that report the health issues of one group.
pub open spec fn group_issue_rows(g: Nodegroup) -> Seq<(Seq<char>, Seq<char>, Seq<char>)> {
    match g.health_issues {
        Some(v) => v@.map_values(|i: NodegroupIssue| issue_row(g.nodegroup_name->0@, i)),
        None => Seq::empty(),
    }
}

/// The rows that report the health issues of all groups, group by group.
pub open spec fn health_issue_rows(gs: Seq<Nodegroup>) -> Seq<(Seq<char>, Seq<char>, Seq<char>)>
    decreases gs.len(),
{
    if gs.len() == 0 {
        Seq::empty()
    } else {
        health_issue_rows(gs.drop_last()) + group_issue_rows(gs.last())
    }
}

/// The row that a health issue record shows.
pub open spec fn row_of(h: NodegroupHealthIssue) -> (Seq<char>, Seq<char>, Seq<char>) {
    (h.name@, h.code@, h.message@)
}

/// Reports every health issue of the managed node groups, one record per
/// issue, group by group; `None` where no group has one. An issue without a
/// code shows `InternalFailure`, one without a message an empty message.
pub fn eks_managed_node_group_health(node_groups: &Vec<Nodegroup>) -> (r: Result<
    Option<Vec<NodegroupHealthIssue>>,
    CheckError,
>)
    ensures
        match r {
            Ok(found) => {
                &&& forall|i: int|
                    0 <= i < node_groups@.len() ==> (#[trigger] node_groups@[i]).nodegroup_name is Some
                &&& match found {
                    None => health_issue_rows(node_groups@).len() == 0,
                    Some(v) => health_issue_rows(node_groups@).len() > 0 && v@.map_values(
                        |h: NodegroupHealthIssue| row_of(h),
                    ) == health_issue_rows(node_groups@),
                }
            },
            Err(e) => {
                &&& exists|i: int|
                    0 <= i < node_groups@.len() && (#[trigger] node_groups@[i]).nodegroup_name is None
                &&& e == CheckError::MissingRequiredField
            },
        },
{
    let mut found: Vec<NodegroupHealthIssue> = Vec::new();
    let mut i: usize = 0;
    while i < node_groups.len()
        invariant
            i <= node_groups.len(),
            forall|j: int| 0 <= j < i ==> (#[trigger] node_groups@[j]).nodegroup_name is Some,
            found@.map_values(|h: NodegroupHealthIssue| row_of(h)) == health_issue_rows(
                node_groups@.take(i as int),
            ),
        decreases node_groups.len() - i,
    {
        let group = &node_groups[i];
        let name = match &group.nodegroup_name {
            Some(name) => name,
            None => {
                assert(node_groups@[i as int].nodegroup_name is None);
                return Err(CheckError::MissingRequiredField);
            },
        };
        let ghost before = found@.map_values(|h: NodegroupHealthIssue| row_of(h));
        if let Some(issues) = &group.health_issues {
            let mut j: usize = 0;
            while j < issues.len()
                invariant
                    j <= issues.len(),
                    group.health_issues == Some(*issues),
                    group.nodegroup_name == Some(*name),
                    found@.map_values(|h: NodegroupHealthIssue| row_of(h)) == before
                        + issues@.take(j as int).map_values(
                        |x: NodegroupIssue| issue_row(name@, x),
                    ),
                decreases issues.len() - j,
            {
                let issue = &issues[j];
                let code = match &issue.code {
                    Some(c) => c.clone(),
                    None => String::from_str("InternalFailure"),
                };
                let message = match &issue.message {
                    Some(m) => m.clone(),
                    None => String::new(),
                };
                let rec = NodegroupHealthIssue { name: name.clone(), code, message };
                assert(row_of(rec) == issue_row(name@, *issue));
                let ghost prev = found@;
                found.push(rec);
                assert(found@.map_values(|h: NodegroupHealthIssue| row_of(h)) =~= prev.map_values(
                    |h: NodegroupHealthIssue| row_of(h),
                ).push(row_of(rec)));
                assert(issues@.take(j + 1).map_values(|x: NodegroupIssue| issue_row(name@, x))
                    =~= issues@.take(j as int).map_values(|x: NodegroupIssue| issue_row(name@, x)).push(
                    issue_row(name@, *issue),
                ));
                assert(found@.map_values(|h: NodegroupHealthIssue| row_of(h)) =~= before
                    + issues@.take(j + 1).map_values(|x: NodegroupIssue| issue_row(name@, x)));
                j = j + 1;
            }
            assert(issues@.take(j as int) =~= issues@);
        } else {
            assert(found@.map_values(|h: NodegroupHealthIssue| row_of(h)) =~= before
                + group_issue_rows(*group));
        }
        assert(node_groups@.take(i + 1).drop_last() =~= node_groups@.take(i as int));
        assert(node_groups@.take(i + 1).last() == *group);
        i = i + 1;
    }
    assert(node_groups@.take(i as int) =~= node_groups@);
    Ok(finding(found))
}

/// The add-on versions that the provider offers for one Kubernetes version.
#[derive(Debug)]
pub struct AddonVersion {
    /// The newest version offered.
    pub latest: String,
    /// The version installed when none is asked for.
    pub default: String,
}

/// A health issue that the provider reports on an add-on.
#[derive(Debug)]
pub struct AddonIssue {
    pub code: Option<String>,
    pub message: Option<String>,
    pub resource_ids: Option<Vec<String>>,
}

/// An add-on installed on the cluster.
#[derive(Debug)]
pub struct Addon {
    pub addon_name: Option<String>,
    pub addon_version: Option<String>,
    /// The issues of its health report, where it has one.
    pub health_issues: Option<Vec<AddonIssue>>,
}

/// One query for the versions of an add-on that suit a Kubernetes version.
#[derive(Debug)]
pub struct AddonLookup {
    pub addon_name: String,
    pub kubernetes_version: String,
}

/// An installed add-on beside the versions offered for the cluster's
/// current and target Kubernetes versions. No verdict is drawn: the operator
/// compares.
#[derive(Debug)]
pub struct AddonStatus {
    pub name: String,
    /// The installed version.
    pub version: String,
    pub current_kubernetes_version: AddonVersion,
    pub target_kubernetes_version: AddonVersion,
    pub issues: Option<Vec<AddonIssue>>,
}

/// The status of add-on `a`, given the versions offered for the current and
/// the target Kubernetes version.
pub open spec fn status_of(a: Addon, current: AddonVersion, target: AddonVersion) -> AddonStatus {
    AddonStatus {
        name: a.addon_name->0,
        version: a.addon_version->0,
        current_kubernetes_version: current,
        target_kubernetes_version: target,
        issues: a.health_issues,
    }
}

/// The version queries that the add-on check needs: two per add-on, in the
/// order of `addons`, the first for the cluster's current version and the
/// second for the target version.
pub fn addon_version_lookups(addons: &Vec<Addon>, cluster_version: &str) -> (r: Result<
    Vec<AddonLookup>,
    CheckError,
>)
    ensures
        match r {
            Ok(v) => {
                &&& minor_version(cluster_version@) is Some
                &&& v@.len() == 2 * addons@.len()
                &&& forall|i: int|
                    0 <= i < addons@.len() ==> {
                        &&& (#[trigger] addons@[i]).addon_name is Some
                        &&& v@[2 * i].addon_name == addons@[i].addon_name->0
                        &&& v@[2 * i].kubernetes_version@ == cluster_version@
                        &&& v@[2 * i + 1].addon_name == addons@[i].addon_name->0
                        &&& v@[2 * i + 1].kubernetes_version@ == target_version(
                            minor_version(cluster_version@)->0,
                        )
                    }
            },
            Err(e) => {
                ||| minor_version(cluster_version@) is None && e == CheckError::MalformedVersion
                ||| minor_version(cluster_version@) is Some && (exists|i: int|
                    0 <= i < addons@.len() && (#[trigger] addons@[i]).addon_name is None) && e
                    == CheckError::MissingRequiredField
            },
        },
{
    let target = get_target_version(cluster_version)?;
    let mut lookups: Vec<AddonLookup> = Vec::new();
    let mut i: usize = 0;
    while i < addons.len()
        invariant
            i <= addons.len(),
            minor_version(cluster_version@) is Some,
            target@ == target_version(minor_version(cluster_version@)->0),
            lookups@.len() == 2 * i,
            forall|k: int|
                0 <= k < i ==> {
                    &&& (#[trigger] addons@[k]).addon_name is Some
                    &&& lookups@[2 * k].addon_name == addons@[k].addon_name->0
                    &&& lookups@[2 * k].kubernetes_version@ == cluster_version@
                    &&& lookups@[2 * k + 1].addon_name == addons@[k].addon_name->0
                    &&& lookups@[2 * k + 1].kubernetes_version@ == target_version(
                        minor_version(cluster_version@)->0,
                    )
                },
        decreases addons.len() - i,
    {
        let name = match &addons[i].addon_name {
            Some(name) => name,
            None => {
                assert(addons@[i as int].addon_name is None);
                return Err(CheckError::MissingRequiredField);
            },
        };
        lookups.push(
            AddonLookup { addon_name: name.clone(), kubernetes_version: cluster_version.to_owned() },
        );
        lookups.push(AddonLookup { addon_name: name.clone(), kubernetes_version: target.clone() });
        i = i + 1;
    }
    Ok(lookups)
}

/// A copy of `v`.
fn copy_version(v: &AddonVersion) -> (r: AddonVersion)
    ensures
        r == *v,
{
    AddonVersion { latest: v.latest.clone(), default: v.default.clone() }
}

/// The status of each installed add-on, in order, where `versions` holds
/// the answers to the queries of `addon_version_lookups`, two per add-on.
/// `None` only where no add-on is installed.
pub fn update_addon_version(addons: Vec<Addon>, versions: &Vec<AddonVersion>) -> (r: Result<
    Option<Vec<AddonStatus>>,
    CheckError,
>)
    requires
        versions@.len() == 2 * addons@.len(),
    ensures
        match r {
            Ok(found) => {
                &&& forall|i: int|
                    0 <= i < addons@.len() ==> (#[trigger] addons@[i]).addon_name is Some
                        && addons@[i].addon_version is Some
                &&& match found {
                    None => addons@.len() == 0,
                    Some(v) => {
                        &&& addons@.len() > 0
                        &&& v@.len() == addons@.len()
                        &&& forall|i: int|
                            0 <= i < addons@.len() ==> #[trigger] v@[i] == status_of(
                                addons@[i],
                                versions@[2 * i],
                                versions@[2 * i + 1],
                            )
                    },
                }
            },
            Err(e) => {
                &&& exists|i: int|
                    0 <= i < addons@.len() && ((#[trigger] addons@[i]).addon_name is None
                        || addons@[i].addon_version is None)
                &&& e == CheckError::MissingRequiredField
            },
        },
{
    let ghost all = addons@;
    let mut statuses: Vec<AddonStatus> = Vec::new();
    let mut i: usize = 0;
    for addon in it: addons
        invariant
            it.seq() == all,
            i == it.index(),
            versions@.len() == 2 * all.len(),
            statuses@.len() == i,
            forall|k: int|
                0 <= k < i ==> (#[trigger] all[k]).addon_name is Some && all[k].addon_version
                    is Some,
            forall|k: int|
                0 <= k < i ==> #[trigger] statuses@[k] == status_of(
                    all[k],
                    versions@[2 * k],
                    versions@[2 * k + 1],
                ),
    {
        assert(i < all.len());
        let n_versions = versions.len();
        assert(2 * i + 1 < n_versions);
        assert(all[i as int] == addon);
        let Addon { addon_name, addon_version, health_issues } = addon;
        let (name, version) = match (addon_name, addon_version) {
            (Some(name), Some(version)) => (name, version),
            _ => {
                assert(all[i as int].addon_name is None || all[i as int].addon_version is None);
                return Err(CheckError::MissingRequiredField);
            },
        };
        statuses.push(
            AddonStatus {
                name,
                version,
                current_kubernetes_version: copy_version(&versions[2 * i]),
                target_kubernetes_version: copy_version(&versions[2 * i + 1]),
                issues: health_issues,
            },
        );
        i = i + 1;
    }
    Ok(finding(statuses))
}

} // verus!
