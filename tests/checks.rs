use eksup::checks::{
    addon_version_lookups, eks_managed_node_group_health, update_addon_version, version_skew,
    Addon, AddonIssue, AddonVersion, Node, NodeInfo,
};
use eksup::compute::{AutoScalingGroup, FargateProfile, Nodegroup, NodegroupIssue};
use eksup::error::CheckError;
use eksup::subnets::{data_plane_subnet_ids, subnet_report, SubnetRecord};

fn node(name: &str, kubelet: &str) -> Node {
    Node {
        name: Some(name.to_string()),
        node_info: Some(NodeInfo {
            kubelet_version: kubelet.to_string(),
            container_runtime_version: "containerd://1.6.6".to_string(),
            kernel_version: "5.4.209".to_string(),
            kube_proxy_version: kubelet.to_string(),
        }),
    }
}

fn strings(v: &[&str]) -> Vec<String> {
    v.iter().map(|s| s.to_string()).collect()
}

#[test]
fn skew_none_when_all_nodes_match() {
    let nodes = vec![node("a", "v1.23.9-eks-ba74326"), node("b", "v1.23.7")];
    assert!(version_skew("1.23", &nodes).unwrap().is_none());
}

#[test]
fn skew_reports_mismatched_nodes_in_order() {
    let nodes = vec![
        node("a", "v1.22.9-eks-1"),
        node("b", "v1.23.7"),
        node("c", "v1.21.2-eks-2"),
    ];
    let found = version_skew("v1.23.4-eks-x", &nodes).unwrap().unwrap();
    assert_eq!(found.len(), 2);
    assert_eq!(found[0].name, "a");
    assert_eq!(found[0].kubernetes_version, "1.22");
    assert_eq!(found[0].kubelet_version, "v1.22.9-eks-1");
    assert_eq!(found[0].control_plane_version, "v1.23.4-eks-x");
    assert_eq!(found[0].container_runtime, "containerd://1.6.6");
    assert_eq!(found[0].kernel_version, "5.4.209");
    assert_eq!(found[1].name, "c");
    assert_eq!(found[1].kubernetes_version, "1.21");
}

#[test]
fn skew_none_without_nodes() {
    assert!(version_skew("1.24", &vec![]).unwrap().is_none());
}

#[test]
fn skew_malformed_control_plane() {
    let nodes = vec![node("a", "v1.23.1")];
    assert!(matches!(version_skew("1", &nodes), Err(CheckError::MalformedVersion)));
}

#[test]
fn skew_malformed_kubelet() {
    let nodes = vec![node("a", "v1.23.1"), node("b", "unknown")];
    assert!(matches!(version_skew("1.23", &nodes), Err(CheckError::MalformedVersion)));
}

#[test]
fn skew_node_without_info_is_a_fault() {
    let nodes = vec![Node { name: Some("a".to_string()), node_info: None }];
    assert!(matches!(version_skew("1.23", &nodes), Err(CheckError::MissingRequiredField)));
}

fn group(name: &str, subnets: &[&str], issues: Option<Vec<NodegroupIssue>>) -> Nodegroup {
    Nodegroup {
        nodegroup_name: Some(name.to_string()),
        subnets: Some(strings(subnets)),
        health_issues: issues,
    }
}

#[test]
fn data_plane_subnets_are_deduplicated() {
    let eks = Some(vec![
        group("ng-1", &["subnet-a", "subnet-b"], None),
        group("ng-2", &["subnet-b", "subnet-c"], None),
    ]);
    let fargate = Some(vec![FargateProfile {
        fargate_profile_name: Some("fp".to_string()),
        subnets: Some(strings(&["subnet-a"])),
    }]);
    let ids = data_plane_subnet_ids(&eks, &fargate, &None).unwrap();
    assert_eq!(ids, strings(&["subnet-a", "subnet-b", "subnet-c"]));
}

#[test]
fn data_plane_subnets_split_self_managed_identifiers() {
    let eks = Some(vec![group("ng-1", &["subnet-a"], None)]);
    let asg = Some(vec![AutoScalingGroup {
        auto_scaling_group_name: Some("asg".to_string()),
        vpc_zone_identifier: Some("subnet-d,subnet-a,subnet-e".to_string()),
    }]);
    let ids = data_plane_subnet_ids(&eks, &None, &asg).unwrap();
    assert_eq!(ids, strings(&["subnet-a", "subnet-d", "subnet-e"]));
}

#[test]
fn data_plane_subnets_empty_without_compute() {
    let ids = data_plane_subnet_ids(&None, &Some(vec![]), &None).unwrap();
    assert!(ids.is_empty());
}

#[test]
fn data_plane_subnets_missing_field() {
    let eks = Some(vec![Nodegroup { nodegroup_name: Some("x".to_string()), subnets: None, health_issues: None }]);
    assert!(matches!(data_plane_subnet_ids(&eks, &None, &None), Err(CheckError::MissingRequiredField)));
}

fn record(id: &str, ips: i32) -> SubnetRecord {
    SubnetRecord {
        subnet_id: Some(id.to_string()),
        availability_zone: Some("us-east-1a".to_string()),
        availability_zone_id: Some("use1-az1".to_string()),
        available_ip_address_count: Some(ips),
        cidr_block: Some("10.0.0.0/24".to_string()),
    }
}

#[test]
fn subnet_report_keeps_order_and_counts() {
    let rows = subnet_report(vec![record("subnet-a", 250), record("subnet-b", 3)]).unwrap();
    assert_eq!(rows.len(), 2);
    assert_eq!(rows[0].id, "subnet-a");
    assert_eq!(rows[0].available_ips, 250);
    assert_eq!(rows[1].id, "subnet-b");
    assert_eq!(rows[1].available_ips, 3);
    assert_eq!(rows[1].availability_zone_id, "use1-az1");
}

#[test]
fn subnet_report_missing_field() {
    let mut bad = record("subnet-a", 1);
    bad.cidr_block = None;
    assert!(matches!(subnet_report(vec![record("subnet-b", 2), bad]), Err(CheckError::MissingRequiredField)));
}

#[test]
fn health_none_without_issues() {
    let groups = vec![group("ng-1", &["s"], Some(vec![])), group("ng-2", &["s"], None)];
    assert!(eks_managed_node_group_health(&groups).unwrap().is_none());
}

#[test]
fn health_reports_each_issue_with_defaults() {
    let groups = vec![group(
        "ng-1",
        &["s"],
        Some(vec![
            NodegroupIssue {
                code: Some("AsgInstanceLaunchFailures".to_string()),
                message: Some("capacity".to_string()),
            },
            NodegroupIssue { code: None, message: None },
        ]),
    )];
    let found = eks_managed_node_group_health(&groups).unwrap().unwrap();
    assert_eq!(found.len(), 2);
    assert_eq!(found[0].name, "ng-1");
    assert_eq!(found[0].code, "AsgInstanceLaunchFailures");
    assert_eq!(found[0].message, "capacity");
    assert_eq!(found[1].name, "ng-1");
    assert_eq!(found[1].code, "InternalFailure");
    assert_eq!(found[1].message, "");
}

#[test]
fn health_group_without_name_is_a_fault() {
    let groups = vec![Nodegroup { nodegroup_name: None, subnets: None, health_issues: None }];
    assert!(matches!(eks_managed_node_group_health(&groups), Err(CheckError::MissingRequiredField)));
}

fn vpc_cni() -> Addon {
    Addon {
        addon_name: Some("vpc-cni".to_string()),
        addon_version: Some("v1.2.0".to_string()),
        health_issues: Some(vec![AddonIssue {
            code: Some("InsufficientNumberOfReplicas".to_string()),
            message: Some("one replica".to_string()),
            resource_ids: None,
        }]),
    }
}

#[test]
fn addon_check_queries_current_and_target() {
    let lookups = addon_version_lookups(&vec![vpc_cni()], "1.24").unwrap();
    assert_eq!(lookups.len(), 2);
    assert_eq!(lookups[0].addon_name, "vpc-cni");
    assert_eq!(lookups[0].kubernetes_version, "1.24");
    assert_eq!(lookups[1].addon_name, "vpc-cni");
    assert_eq!(lookups[1].kubernetes_version, "1.25");
}

#[test]
fn addon_status_holds_both_version_sets() {
    let versions = vec![
        AddonVersion { latest: "v1.12.0".to_string(), default: "v1.11.4".to_string() },
        AddonVersion { latest: "v1.12.1".to_string(), default: "v1.12.0".to_string() },
    ];
    let found = update_addon_version(vec![vpc_cni()], &versions).unwrap().unwrap();
    assert_eq!(found.len(), 1);
    assert_eq!(found[0].name, "vpc-cni");
    assert_eq!(found[0].version, "v1.2.0");
    assert_eq!(found[0].current_kubernetes_version.latest, "v1.12.0");
    assert_eq!(found[0].current_kubernetes_version.default, "v1.11.4");
    assert_eq!(found[0].target_kubernetes_version.latest, "v1.12.1");
    assert_eq!(found[0].target_kubernetes_version.default, "v1.12.0");
    let issues = found[0].issues.as_ref().unwrap();
    assert_eq!(issues.len(), 1);
    assert_eq!(issues[0].code.as_deref(), Some("InsufficientNumberOfReplicas"));
}

#[test]
fn addon_status_none_without_addons() {
    assert!(update_addon_version(vec![], &vec![]).unwrap().is_none());
}

#[test]
fn addon_without_version_is_a_fault() {
    let mut a = vpc_cni();
    a.addon_version = None;
    let versions = vec![
        AddonVersion { latest: "a".to_string(), default: "b".to_string() },
        AddonVersion { latest: "c".to_string(), default: "d".to_string() },
    ];
    assert!(matches!(update_addon_version(vec![a], &versions), Err(CheckError::MissingRequiredField)));
}

#[test]
fn addon_lookups_malformed_cluster_version() {
    assert!(matches!(addon_version_lookups(&vec![vpc_cni()], "v1"), Err(CheckError::MalformedVersion)));
}

#[test]
fn skew_mismatched_node_without_major_minor_form() {
    let nodes = vec![node("a", "x.22")];
    assert!(matches!(version_skew("1.23", &nodes), Err(CheckError::MalformedVersion)));
    let matching = vec![node("b", "x.23")];
    assert!(version_skew("1.23", &matching).unwrap().is_none());
}
