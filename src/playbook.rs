//! The data of the upgrade playbook: what fills its templates, the name of
//! the file it is written to, and the clean-up of the rendered text.
use vstd::prelude::*;

use crate::text::{replace_all, replace_str};

verus! {

/// What fills the playbook's templates.
#[derive(Debug)]
pub struct TemplateData {
    pub region: String,
    pub cluster_name: String,
    pub current_version: String,
    pub target_version: String,
    pub k8s_release_url: String,
    pub k8s_deprecation_url: String,
    pub version_skew: Option<String>,
    pub control_plane_ips: Option<String>,
    pub pod_ips: Option<String>,
    pub cluster_health: Option<String>,
    pub addon_health: Option<String>,
    pub addon_version_compatibility: Option<String>,
    pub eks_managed_nodegroups: Vec<String>,
    pub eks_managed_nodegroup_template: String,
    pub self_managed_nodegroups: Vec<String>,
    pub self_managed_nodegroup_template: String,
    pub fargate_profiles: Vec<String>,
    pub fargate_profile_template: String,
}

/// Rendered text with the entities that the renderer escapes turned back
/// into their characters, one entity after the other.
pub open spec fn unescaped(t: Seq<char>) -> Seq<char> {
    let t1 = replace_all(t, "&#x60;"@, "`"@);
    let t2 = replace_all(t1, "&#x27;"@, "'"@);
    let t3 = replace_all(t2, "&lt;"@, "<"@);
    let t4 = replace_all(t3, "&amp;lt;"@, "<"@);
    let t5 = replace_all(t4, "&gt;"@, ">"@);
    let t6 = replace_all(t5, "&amp;gt;"@, ">"@);
    let t7 = replace_all(t6, "&quot;"@, "\""@);
    replace_all(t7, "&#x3D;"@, "="@)
}

/// Turns the entities of rendered text back into the characters they stand
/// for: backtick, apostrophe, `<` (also when its `&` was escaped again),
/// `>` (likewise), double quote and `=`.
pub fn char_replace(text: String) -> (r: String)
    ensures
        r@ == unescaped(text@),
{
    proof {
        reveal_strlit("&#x60;");
        reveal_strlit("&#x27;");
        reveal_strlit("&lt;");
        reveal_strlit("&amp;lt;");
        reveal_strlit("&gt;");
        reveal_strlit("&amp;gt;");
        reveal_strlit("&quot;");
        reveal_strlit("&#x3D;");
    }
    let t = replace_str(text.as_str(), "&#x60;", "`");
    let t = replace_str(t.as_str(), "&#x27;", "'");
    let t = replace_str(t.as_str(), "&lt;", "<");
    let t = replace_str(t.as_str(), "&amp;lt;", "<");
    let t = replace_str(t.as_str(), "&gt;", ">");
    let t = replace_str(t.as_str(), "&amp;gt;", ">");
    let t = replace_str(t.as_str(), "&quot;", "\"");
    replace_str(t.as_str(), "&#x3D;", "=")
}

/// The file a playbook is written to when no name is given:
/// `<cluster>_v<target>_upgrade.md`.
pub fn default_playbook_name(cluster_name: &str, target_version: &str) -> (r: String)
    ensures
        r@ == cluster_name@ + "_v"@ + target_version@ + "_upgrade.md"@,
{
    let mut out = String::from_str(cluster_name);
    out.append("_v");
    out.append(target_version);
    out.append("_upgrade.md");
    out
}

} // verus!
