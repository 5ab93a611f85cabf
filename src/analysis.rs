//! The findings of one analysis run, grouped by subsystem. Each check runs
//! on state collected beforehand; a failing check aborts the whole run, so
//! no partial result is ever returned.
use vstd::prelude::*;

use crate::checks::{
    eks_managed_node_group_health, first_fault, health_issue_rows, is_skewed, reports_nodes, row_of,
    skewed_nodes, status_of, update_addon_version, version_skew, Addon, AddonStatus, AddonVersion, Node,
    NodeDetail, NodegroupHealthIssue,
};
use crate::compute::{AutoScalingGroup, FargateProfile, Nodegroup};
use crate::error::CheckError;
use crate::subnets::{
    is_complete, lacks_subnets, referenced_subnet_ids, subnet_of, subnet_report, Subnet,
    SubnetRecord,
};
use crate::text::dedup;
use crate::version::minor_version;

verus! {

/// Findings on the nodes and node groups that run workloads.
#[derive(Debug)]
pub struct DataPlaneFindings {
    pub version_skew: Option<Vec<NodeDetail>>,
    pub eks_managed_nodegroup_health: Option<Vec<NodegroupHealthIssue>>,
}

/// The available addresses of the subnets in use. Always reported.
#[derive(Debug)]
pub struct SubnetFindings {
    pub control_plane_ips: Vec<Subnet>,
    pub pod_ips: Vec<Subnet>,
}

/// Findings on the installed add-ons.
#[derive(Debug)]
pub struct AddonFindings {
    pub version_compatibility: Option<Vec<AddonStatus>>,
}

/// Everything one run found.
#[derive(Debug)]
pub struct Results {
    pub data_plane: DataPlaneFindings,
    pub subnets: SubnetFindings,
    pub addons: AddonFindings,
}

/// The state that one run collected before it checks anything.
pub struct Collected {
    /// The control plane's version.
    pub cluster_version: String,
    pub nodes: Vec<Node>,
    pub eks_managed_node_groups: Option<Vec<Nodegroup>>,
    /// The subnet records of the cluster's network configuration.
    pub control_plane_subnets: Vec<SubnetRecord>,
    /// The subnet records of the identifiers that `data_plane_subnet_ids` gave.
    pub data_plane_subnets: Vec<SubnetRecord>,
    pub addons: Vec<Addon>,
    /// The answers to the queries of `addon_version_lookups`, two per add-on.
    pub addon_versions: Vec<AddonVersion>,
}

/// The control plane's version, or a node, stops the skew check.
pub open spec fn skew_fails(c: Collected) -> bool {
    ||| minor_version(c.cluster_version@) is None
    ||| first_fault(minor_version(c.cluster_version@)->0, c.nodes@) is Some
}

/// A managed node group has no name.
pub open spec fn health_fails(c: Collected) -> bool {
    c.eks_managed_node_groups is Some && exists|i: int|
        0 <= i < c.eks_managed_node_groups->0@.len()
            && (#[trigger] c.eks_managed_node_groups->0@[i]).nodegroup_name is None
}

/// Some subnet record lacks a field.
pub open spec fn subnets_fail(c: Collected) -> bool {
    ||| exists|i: int|
        0 <= i < c.control_plane_subnets@.len() && !is_complete(
            #[trigger] c.control_plane_subnets@[i],
        )
    ||| exists|i: int|
        0 <= i < c.data_plane_subnets@.len() && !is_complete(#[trigger] c.data_plane_subnets@[i])
}

/// An add-on lacks its name or its version.
pub open spec fn addons_fail(c: Collected) -> bool {
    exists|i: int|
        0 <= i < c.addons@.len() && ((#[trigger] c.addons@[i]).addon_name is None
            || c.addons@[i].addon_version is None)
}

/// Runs every check on the collected state and gathers the findings. The
/// run succeeds exactly when no check fails; each finding is then what its
/// check reports.
pub fn analyze(c: Collected) -> (r: Result<Results, CheckError>)
    requires
        c.addon_versions@.len() == 2 * c.addons@.len(),
    ensures
        match r {
            Ok(res) => {
                &&& !skew_fails(c) && !health_fails(c) && !subnets_fail(c) && !addons_fail(c)
                &&& match res.data_plane.version_skew {
                    None => forall|i: int|
                        0 <= i < c.nodes@.len() ==> !is_skewed(
                            minor_version(c.cluster_version@)->0,
                            #[trigger] c.nodes@[i],
                        ),
                    Some(v) => {
                        &&& v@.len() > 0
                        &&& reports_nodes(
                            v@,
                            skewed_nodes(minor_version(c.cluster_version@)->0, c.nodes@),
                            c.cluster_version@,
                        )
                    },
                }
                &&& match res.data_plane.eks_managed_nodegroup_health {
                    None => c.eks_managed_node_groups is None || health_issue_rows(
                        c.eks_managed_node_groups->0@,
                    ).len() == 0,
                    Some(v) => c.eks_managed_node_groups is Some && v@.len() > 0 && v@.map_values(
                        |h: NodegroupHealthIssue| row_of(h),
                    ) == health_issue_rows(c.eks_managed_node_groups->0@),
                }
                &&& res.subnets.control_plane_ips@ == c.control_plane_subnets@.map_values(
                    |x: SubnetRecord| subnet_of(x),
                )
                &&& res.subnets.pod_ips@ == c.data_plane_subnets@.map_values(
                    |x: SubnetRecord| subnet_of(x),
                )
                &&& match res.addons.version_compatibility {
                    None => c.addons@.len() == 0,
                    Some(v) => c.addons@.len() > 0 && v@.len() == c.addons@.len() && forall|i: int|
                        0 <= i < c.addons@.len() ==> #[trigger] v@[i] == status_of(
                            c.addons@[i],
                            c.addon_versions@[2 * i],
                            c.addon_versions@[2 * i + 1],
                        ),
                }
            },
            Err(e) => {
                ||| e == CheckError::MalformedVersion && skew_fails(c)
                ||| e == CheckError::MissingRequiredField && (skew_fails(c) || health_fails(c)
                    || subnets_fail(c) || addons_fail(c))
            },
        },
{
    let ghost c0 = c;
    let Collected {
        cluster_version,
        nodes,
        eks_managed_node_groups,
        control_plane_subnets,
        data_plane_subnets,
        addons,
        addon_versions,
    } = c;
    let skew = version_skew(cluster_version.as_str(), &nodes)?;
    proof {
        reveal(Seq::filter);
        if skew is None {
            crate::checks::lemma_skew_exactly_mismatched(
                minor_version(c0.cluster_version@)->0,
                c0.nodes@,
            );
        }
    }
    let health = match &eks_managed_node_groups {
        Some(groups) => eks_managed_node_group_health(groups)?,
        None => None,
    };
    let control_plane_ips = subnet_report(control_plane_subnets)?;
    let pod_ips = subnet_report(data_plane_subnets)?;
    let version_compatibility = update_addon_version(addons, &addon_versions)?;
    Ok(
        Results {
            data_plane: DataPlaneFindings {
                version_skew: skew,
                eks_managed_nodegroup_health: health,
            },
            subnets: SubnetFindings { control_plane_ips, pod_ips },
            addons: AddonFindings { version_compatibility },
        },
    )
}

/// With no compute construct (each collection absent or empty) and so no
/// node, the data plane references no subnet, so its subnet query asks for
/// nothing, no node group has a health issue, and no node is skewed.
pub proof fn lemma_no_compute_no_data_plane_findings(
    eks: Option<Vec<Nodegroup>>,
    fargate: Option<Vec<FargateProfile>>,
    self_managed: Option<Vec<AutoScalingGroup>>,
    nodes: Seq<Node>,
    cp_minor: nat,
)
    requires
        eks is None || eks->0@.len() == 0,
        fargate is None || fargate->0@.len() == 0,
        self_managed is None || self_managed->0@.len() == 0,
        nodes.len() == 0,
    ensures
        skewed_nodes(cp_minor, nodes).len() == 0,
        !lacks_subnets(eks, fargate, self_managed),
        referenced_subnet_ids(eks, fargate, self_managed).len() == 0,
        dedup(referenced_subnet_ids(eks, fargate, self_managed)).len() == 0,
        eks is Some ==> health_issue_rows(eks->0@).len() == 0,
{
    assert(referenced_subnet_ids(eks, fargate, self_managed) =~= Seq::empty());
    reveal(Seq::filter);
}

} // verus!
