use eksup::analysis::{analyze, Collected};
use eksup::checks::{Node, NodeInfo};
use eksup::error::CheckError;
use eksup::subnets::{data_plane_subnet_ids, SubnetRecord};

fn record(id: &str, ips: i32) -> SubnetRecord {
    SubnetRecord {
        subnet_id: Some(id.to_string()),
        availability_zone: Some("us-west-2a".to_string()),
        availability_zone_id: Some("usw2-az1".to_string()),
        available_ip_address_count: Some(ips),
        cidr_block: Some("10.1.0.0/20".to_string()),
    }
}

fn empty_run(nodes: Vec<Node>) -> Collected {
    Collected {
        cluster_version: "1.23".to_string(),
        nodes,
        eks_managed_node_groups: None,
        control_plane_subnets: vec![record("subnet-1", 4000), record("subnet-2", 12)],
        data_plane_subnets: vec![],
        addons: vec![],
        addon_versions: vec![],
    }
}

#[test]
fn no_compute_leaves_only_control_plane_subnets() {
    assert!(data_plane_subnet_ids(&None, &None, &None).unwrap().is_empty());
    let res = analyze(empty_run(vec![])).unwrap();
    assert!(res.data_plane.version_skew.is_none());
    assert!(res.data_plane.eks_managed_nodegroup_health.is_none());
    assert!(res.subnets.pod_ips.is_empty());
    assert!(res.addons.version_compatibility.is_none());
    assert_eq!(res.subnets.control_plane_ips.len(), 2);
    assert_eq!(res.subnets.control_plane_ips[0].id, "subnet-1");
    assert_eq!(res.subnets.control_plane_ips[0].available_ips, 4000);
    assert_eq!(res.subnets.control_plane_ips[1].id, "subnet-2");
}

#[test]
fn analysis_aborts_on_failing_check() {
    let bad = Node { name: Some("n".to_string()), node_info: Some(NodeInfo {
        kubelet_version: "garbage".to_string(),
        container_runtime_version: String::new(),
        kernel_version: String::new(),
        kube_proxy_version: String::new(),
    }) };
    assert!(matches!(analyze(empty_run(vec![bad])), Err(CheckError::MalformedVersion)));
}
