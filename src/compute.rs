//! The compute constructs that run a cluster's workloads, as collected from
//! the cloud provider: managed node groups, self-managed autoscaling groups
//! and serverless pod profiles. A field the provider may leave out is an
//! `Option`.
use vstd::prelude::*;

verus! {

/// A health issue that the provider reports on a managed node group.
#[derive(Debug)]
pub struct NodegroupIssue {
    pub code: Option<String>,
    pub message: Option<String>,
}

/// A node group managed by the provider.
#[derive(Debug)]
pub struct Nodegroup {
    pub nodegroup_name: Option<String>,
    pub subnets: Option<Vec<String>>,
    /// The issues of its health report, where it has one.
    pub health_issues: Option<Vec<NodegroupIssue>>,
}

/// A self-managed autoscaling group.
#[derive(Debug)]
pub struct AutoScalingGroup {
    pub auto_scaling_group_name: Option<String>,
    /// The group's subnet identifiers, separated by commas.
    pub vpc_zone_identifier: Option<String>,
}

/// A serverless pod execution profile.
#[derive(Debug)]
pub struct FargateProfile {
    pub fargate_profile_name: Option<String>,
    pub subnets: Option<Vec<String>>,
}

} // verus!
