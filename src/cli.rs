//! The command-line model: the commands, their arguments, and the values an
//! argument may take. Parsing itself is done around the library.
use vstd::prelude::*;

use crate::text::{decimal, push_char, push_decimal};

verus! {

/// The Kubernetes versions a playbook can be made for.
#[derive(Clone, Copy, Debug, PartialEq, Eq, Structural)]
pub enum KubernetesVersion {
    V20,
    V21,
    V22,
    V23,
    V24,
}

/// The newest Kubernetes version supported, as a minor number.
pub const LATEST_MINOR: u32 = 24;

impl KubernetesVersion {
    /// The minor number of the version.
    pub open spec fn spec_minor(self) -> nat {
        match self {
            KubernetesVersion::V20 => 20,
            KubernetesVersion::V21 => 21,
            KubernetesVersion::V22 => 22,
            KubernetesVersion::V23 => 23,
            KubernetesVersion::V24 => 24,
        }
    }

    /// The minor number of the version.
    pub fn minor(&self) -> (r: u32)
        ensures
            r == self.spec_minor(),
    {
        match self {
            KubernetesVersion::V20 => 20,
            KubernetesVersion::V21 => 21,
            KubernetesVersion::V22 => 22,
            KubernetesVersion::V23 => 23,
            KubernetesVersion::V24 => 24,
        }
    }

    /// Every supported version, oldest first.
    pub fn value_variants() -> (r: Vec<KubernetesVersion>)
        ensures
            r@ == seq![
                KubernetesVersion::V20,
                KubernetesVersion::V21,
                KubernetesVersion::V22,
                KubernetesVersion::V23,
                KubernetesVersion::V24,
            ],
    {
        vec![
            KubernetesVersion::V20,
            KubernetesVersion::V21,
            KubernetesVersion::V22,
            KubernetesVersion::V23,
            KubernetesVersion::V24,
        ]
    }

    /// The version written `1.<minor>`.
    pub fn to_version_string(&self) -> (r: String)
        ensures
            r@ == seq!['1', '.'] + decimal(self.spec_minor()),
    {
        let mut out = String::new();
        push_char(&mut out, '1');
        push_char(&mut out, '.');
        push_decimal(&mut out, self.minor() as u64);
        assert(out@ =~= seq!['1', '.'] + decimal(self.spec_minor()));
        out
    }

    /// The version is the newest supported one: there is nothing to upgrade to.
    pub fn is_latest(&self) -> (r: bool)
        ensures
            r == (self.spec_minor() == LATEST_MINOR),
    {
        self.minor() == LATEST_MINOR
    }
}

/// The compute constructs a data plane can be made of.
#[derive(Clone, Copy, Debug, PartialEq, Eq, Structural)]
pub enum Compute {
    EksManaged,
    SelfManaged,
    FargateProfile,
}

impl Compute {
    /// Every compute construct, in the order they are offered.
    pub fn value_variants() -> (r: Vec<Compute>)
        ensures
            r@ == seq![Compute::EksManaged, Compute::SelfManaged, Compute::FargateProfile],
    {
        vec![Compute::EksManaged, Compute::SelfManaged, Compute::FargateProfile]
    }

    /// The word that selects the construct on the command line.
    pub fn to_possible_value(&self) -> (r: &'static str)
        ensures
            r@ == match self {
                Compute::EksManaged => "eks"@,
                Compute::SelfManaged => "self"@,
                Compute::FargateProfile => "fargate"@,
            },
    {
        match self {
            Compute::EksManaged => "eks",
            Compute::SelfManaged => "self",
            Compute::FargateProfile => "fargate",
        }
    }
}

/// How a cluster is upgraded. `InPlace`: the provider updates the control
/// plane where it stands.
#[derive(Clone, Copy, Debug, PartialEq, Eq, Structural)]
pub enum Strategy {
    InPlace,
}

impl Default for Strategy {
    /// A cluster is upgraded in place unless asked otherwise.
    fn default() -> (r: Strategy)
        ensures
            r == Strategy::InPlace,
    {
        Strategy::InPlace
    }
}

/// The form an analysis is written in.
#[derive(Clone, Copy, Debug, PartialEq, Eq, Structural)]
pub enum OutputFormat {
    Json,
    Text,
}

impl Default for OutputFormat {
    /// Analyses are written as JSON unless asked otherwise.
    fn default() -> (r: OutputFormat)
        ensures
            r == OutputFormat::Json,
    {
        OutputFormat::Json
    }
}

/// Where an analysis is written.
#[derive(Clone, Copy, Debug, PartialEq, Eq, Structural)]
pub enum OutputType {
    Stdout,
    File,
}

impl Default for OutputType {
    /// Analyses go to standard output unless asked otherwise.
    fn default() -> (r: OutputType)
        ensures
            r == OutputType::Stdout,
    {
        OutputType::Stdout
    }
}

/// The arguments of an analysis of a cluster before its upgrade.
pub struct Analysis {
    /// The name of the cluster to analyze.
    pub cluster_name: String,
    /// The region where the cluster is provisioned.
    pub region: Option<String>,
    pub output_format: OutputFormat,
    pub output_type: OutputType,
    pub output_filename: Option<String>,
}

/// The arguments of the making of an upgrade playbook.
pub struct Playbook {
    /// The name of the cluster.
    pub cluster_name: Option<String>,
    /// The cluster's current Kubernetes version.
    pub cluster_version: KubernetesVersion,
    /// The compute constructs of the data plane (one to three).
    pub compute: Vec<Compute>,
    /// Whether the machine image is the operator's own.
    pub custom_ami: bool,
    /// The name of the file written.
    pub filename: String,
    pub strategy: Strategy,
}

/// What the program is asked to do.
pub enum Commands {
    Analyze(Analysis),
    CreatePlaybook(Playbook),
}

/// The parsed command line.
pub struct Cli {
    pub command: Commands,
}

} // verus!
