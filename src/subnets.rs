//! Subnet capacity: which subnets the control plane and the data plane use,
//! and the available addresses of each. No threshold is applied: the
//! figures themselves are reported.
use vstd::prelude::*;

use crate::compute::{AutoScalingGroup, FargateProfile, Nodegroup};
use crate::error::CheckError;
use crate::text::{dedup, insert_each, lemma_dedup, no_repeats, split_on, split_pieces, views};

verus! {

/// A cluster as the provider describes it.
#[derive(Debug)]
pub struct Cluster {
    pub name: Option<String>,
    pub version: Option<String>,
    /// The subnets of the cluster's network configuration.
    pub subnet_ids: Option<Vec<String>>,
}

/// A subnet as the provider describes it.
#[derive(Debug)]
pub struct SubnetRecord {
    pub subnet_id: Option<String>,
    pub availability_zone: Option<String>,
    pub availability_zone_id: Option<String>,
    pub available_ip_address_count: Option<i32>,
    pub cidr_block: Option<String>,
}

/// What the report shows of a subnet.
#[derive(Debug)]
pub struct Subnet {
    pub id: String,
    pub availability_zone: String,
    pub availability_zone_id: String,
    pub available_ips: i32,
    pub cidr_block: String,
}

/// The record has every field that the report shows.
pub open spec fn is_complete(r: SubnetRecord) -> bool {
    &&& r.subnet_id is Some
    &&& r.availability_zone is Some
    &&& r.availability_zone_id is Some
    &&& r.available_ip_address_count is Some
    &&& r.cidr_block is Some
}

/// The report row of a complete record.
pub open spec fn subnet_of(r: SubnetRecord) -> Subnet {
    Subnet {
        id: r.subnet_id->0,
        availability_zone: r.availability_zone->0,
        availability_zone_id: r.availability_zone_id->0,
        available_ips: r.available_ip_address_count->0,
        cidr_block: r.cidr_block->0,
    }
}

/// The subnets of the cluster's network configuration, which the control
/// plane uses.
pub fn control_plane_subnet_ids(cluster: &Cluster) -> (r: Result<&Vec<String>, CheckError>)
    ensures
        match r {
            Ok(ids) => cluster.subnet_ids == Some(*ids),
            Err(e) => cluster.subnet_ids is None && e == CheckError::MissingRequiredField,
        },
{
    match &cluster.subnet_ids {
        Some(ids) => Ok(ids),
        None => Err(CheckError::MissingRequiredField),
    }
}

/// One report row per subnet record, in order; a record that lacks a field
/// stops the report.
pub fn subnet_report(records: Vec<SubnetRecord>) -> (r: Result<Vec<Subnet>, CheckError>)
    ensures
        match r {
            Ok(v) => (forall|i: int| 0 <= i < records@.len() ==> is_complete(#[trigger] records@[i]))
                && v@ == records@.map_values(|x: SubnetRecord| subnet_of(x)),
            Err(e) => (exists|i: int| 0 <= i < records@.len() && !is_complete(#[trigger] records@[i]))
                && e == CheckError::MissingRequiredField,
        },
{
    let ghost all = records@;
    let mut out: Vec<Subnet> = Vec::new();
    for rec in it: records
        invariant
            it.seq() == all,
            forall|i: int| 0 <= i < it.index() ==> is_complete(#[trigger] all[i]),
            out@ == all.take(it.index() as int).map_values(|x: SubnetRecord| subnet_of(x)),
    {
        let ghost k = it.index();
        assert(all[k as int] == rec);
        match (rec.subnet_id, rec.availability_zone, rec.availability_zone_id, rec.available_ip_address_count, rec.cidr_block) {
            (Some(id), Some(availability_zone), Some(availability_zone_id), Some(available_ips), Some(cidr_block)) => {
                out.push(Subnet { id, availability_zone, availability_zone_id, available_ips, cidr_block });
                assert(out@ =~= all.take(k + 1).map_values(|x: SubnetRecord| subnet_of(x)));
            },
            _ => {
                assert(!is_complete(all[k as int]));
                return Err(CheckError::MissingRequiredField);
            },
        }
    }
    assert(all.take(all.len() as int) =~= all);
    Ok(out)
}

/// The subnet identifiers of managed node groups, group by group.
pub open spec fn nodegroup_subnet_ids(gs: Seq<Nodegroup>) -> Seq<Seq<char>>
    decreases gs.len(),
{
    if gs.len() == 0 {
        Seq::empty()
    } else {
        nodegroup_subnet_ids(gs.drop_last()) + views(gs.last().subnets->0@)
    }
}

/// The subnet identifiers of self-managed groups, group by group.
pub open spec fn autoscaling_subnet_ids(gs: Seq<AutoScalingGroup>) -> Seq<Seq<char>>
    decreases gs.len(),
{
    if gs.len() == 0 {
        Seq::empty()
    } else {
        autoscaling_subnet_ids(gs.drop_last()) + split_on(gs.last().vpc_zone_identifier->0@, ',')
    }
}

/// The subnet identifiers of serverless profiles, profile by profile.
pub open spec fn fargate_subnet_ids(ps: Seq<FargateProfile>) -> Seq<Seq<char>>
    decreases ps.len(),
{
    if ps.len() == 0 {
        Seq::empty()
    } else {
        fargate_subnet_ids(ps.drop_last()) + views(ps.last().subnets->0@)
    }
}

/// Every subnet identifier that a compute construct references, repeats
/// included: managed node groups, then self-managed groups, then profiles.
pub open spec fn referenced_subnet_ids(
    eks: Option<Vec<Nodegroup>>,
    fargate: Option<Vec<FargateProfile>>,
    self_managed: Option<Vec<AutoScalingGroup>>,
) -> Seq<Seq<char>> {
    (match eks {
        Some(v) => nodegroup_subnet_ids(v@),
        None => Seq::empty(),
    }) + (match self_managed {
        Some(v) => autoscaling_subnet_ids(v@),
        None => Seq::empty(),
    }) + (match fargate {
        Some(v) => fargate_subnet_ids(v@),
        None => Seq::empty(),
    })
}

/// Some compute construct lacks its subnet field.
pub open spec fn lacks_subnets(
    eks: Option<Vec<Nodegroup>>,
    fargate: Option<Vec<FargateProfile>>,
    self_managed: Option<Vec<AutoScalingGroup>>,
) -> bool {
    ||| eks is Some && exists|i: int|
        0 <= i < eks->0@.len() && (#[trigger] eks->0@[i]).subnets is None
    ||| self_managed is Some && exists|i: int|
        0 <= i < self_managed->0@.len() && (#[trigger] self_managed->0@[i]).vpc_zone_identifier is None
    ||| fargate is Some && exists|i: int|
        0 <= i < fargate->0@.len() && (#[trigger] fargate->0@[i]).subnets is None
}

/// The subnets that the data plane uses, each once, in the order in which
/// the compute constructs first reference them. One subnet query for these
/// covers the data plane, however many constructs share a subnet.
pub fn data_plane_subnet_ids(
    eks: &Option<Vec<Nodegroup>>,
    fargate: &Option<Vec<FargateProfile>>,
    self_managed: &Option<Vec<AutoScalingGroup>>,
) -> (r: Result<Vec<String>, CheckError>)
    ensures
        match r {
            Ok(ids) => !lacks_subnets(*eks, *fargate, *self_managed) && views(ids@) == dedup(
                referenced_subnet_ids(*eks, *fargate, *self_managed),
            ),
            Err(e) => lacks_subnets(*eks, *fargate, *self_managed) && e
                == CheckError::MissingRequiredField,
        },
{
    let mut ids: Vec<String> = Vec::new();
    let ghost seen: Seq<Seq<char>> = Seq::empty();
    if let Some(groups) = eks {
        let mut i: usize = 0;
        while i < groups.len()
            invariant
                i <= groups.len(),
                *eks == Some(*groups),
                seen == nodegroup_subnet_ids(groups@.take(i as int)),
                views(ids@) == dedup(seen),
                forall|j: int| 0 <= j < i ==> (#[trigger] groups@[j]).subnets is Some,
            decreases groups.len() - i,
        {
            let ghost pre = views(ids@);
            match &groups[i].subnets {
                Some(subnets) => {
                    insert_each(&mut ids, subnets);
                    proof {
                        crate::text::lemma_insert_all_append(Seq::empty(), seen, views(subnets@));
                        assert(groups@.take(i + 1).drop_last() =~= groups@.take(i as int));
                        seen = seen + views(subnets@);
                    }
                },
                None => {
                    assert(groups@[i as int].subnets is None);
                    return Err(CheckError::MissingRequiredField);
                },
            }
            i = i + 1;
        }
        assert(groups@.take(i as int) =~= groups@);
    }
    let ghost eks_seen = seen;
    if let Some(groups) = self_managed {
        let mut i: usize = 0;
        while i < groups.len()
            invariant
                i <= groups.len(),
                *self_managed == Some(*groups),
                seen == eks_seen + autoscaling_subnet_ids(groups@.take(i as int)),
                views(ids@) == dedup(seen),
                forall|j: int| 0 <= j < i ==> (#[trigger] groups@[j]).vpc_zone_identifier is Some,
            decreases groups.len() - i,
        {
            match &groups[i].vpc_zone_identifier {
                Some(zones) => {
                    let pieces = split_pieces(zones.as_str(), ',');
                    insert_each(&mut ids, &pieces);
                    proof {
                        crate::text::lemma_insert_all_append(Seq::empty(), seen, views(pieces@));
                        assert(groups@.take(i + 1).drop_last() =~= groups@.take(i as int));
                        assert(eks_seen + autoscaling_subnet_ids(groups@.take(i + 1))
                            =~= seen + views(pieces@));
                        seen = seen + views(pieces@);
                    }
                },
                None => {
                    assert(groups@[i as int].vpc_zone_identifier is None);
                    return Err(CheckError::MissingRequiredField);
                },
            }
            i = i + 1;
        }
        assert(groups@.take(i as int) =~= groups@);
    }
    let ghost mid_seen = seen;
    if let Some(profiles) = fargate {
        let mut i: usize = 0;
        while i < profiles.len()
            invariant
                i <= profiles.len(),
                *fargate == Some(*profiles),
                seen == mid_seen + fargate_subnet_ids(profiles@.take(i as int)),
                views(ids@) == dedup(seen),
                forall|j: int| 0 <= j < i ==> (#[trigger] profiles@[j]).subnets is Some,
            decreases profiles.len() - i,
        {
            match &profiles[i].subnets {
                Some(subnets) => {
                    insert_each(&mut ids, subnets);
                    proof {
                        crate::text::lemma_insert_all_append(Seq::empty(), seen, views(subnets@));
                        assert(profiles@.take(i + 1).drop_last() =~= profiles@.take(i as int));
                        assert(mid_seen + fargate_subnet_ids(profiles@.take(i + 1))
                            =~= seen + views(subnets@));
                        seen = seen + views(subnets@);
                    }
                },
                None => {
                    assert(profiles@[i as int].subnets is None);
                    return Err(CheckError::MissingRequiredField);
                },
            }
            i = i + 1;
        }
        assert(profiles@.take(i as int) =~= profiles@);
    }
    assert(seen =~= referenced_subnet_ids(*eks, *fargate, *self_managed));
    Ok(ids)
}

/// The identifiers that the data-plane subnet query asks for form the union
/// of the compute constructs' subnet sets: none is asked for twice, and
/// each referenced one is asked for.
pub proof fn lemma_data_plane_ids_are_union(
    eks: Option<Vec<Nodegroup>>,
    fargate: Option<Vec<FargateProfile>>,
    self_managed: Option<Vec<AutoScalingGroup>>,
)
    ensures
        no_repeats(dedup(referenced_subnet_ids(eks, fargate, self_managed))),
        forall|x: Seq<char>|
            #[trigger] dedup(referenced_subnet_ids(eks, fargate, self_managed)).contains(x)
                <==> referenced_subnet_ids(eks, fargate, self_managed).contains(x),
{
    lemma_dedup(referenced_subnet_ids(eks, fargate, self_managed));
}

/// The report rows of subnet records, one per record, in order.
pub open spec fn report_of(records: Seq<SubnetRecord>) -> Seq<Subnet> {
    records.map_values(|x: SubnetRecord| subnet_of(x))
}

/// The identifiers of report rows, in order.
pub open spec fn row_ids(rows: Seq<Subnet>) -> Seq<Seq<char>> {
    rows.map_values(|r: Subnet| r.id@)
}

/// Where the subnet query answers the data-plane identifiers with one
/// complete record each, in the order asked, the data-plane report lists
/// each referenced subnet exactly once: no identifier appears twice, and
/// the identifiers shown are those the compute constructs reference.
pub proof fn lemma_data_plane_rows_are_union(
    eks: Option<Vec<Nodegroup>>,
    fargate: Option<Vec<FargateProfile>>,
    self_managed: Option<Vec<AutoScalingGroup>>,
    ids: Seq<String>,
    records: Seq<SubnetRecord>,
)
    requires
        views(ids) == dedup(referenced_subnet_ids(eks, fargate, self_managed)),
        records.len() == ids.len(),
        forall|i: int| 0 <= i < records.len() ==> (#[trigger] records[i]).subnet_id == Some(ids[i]),
    ensures
        no_repeats(row_ids(report_of(records))),
        forall|x: Seq<char>|
            #[trigger] row_ids(report_of(records)).contains(x)
                <==> referenced_subnet_ids(eks, fargate, self_managed).contains(x),
{
    assert(row_ids(report_of(records)) =~= views(ids));
    lemma_dedup(referenced_subnet_ids(eks, fargate, self_managed));
}

} // verus!
