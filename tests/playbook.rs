use eksup::cli::{Compute, KubernetesVersion, OutputFormat, OutputType, Strategy};
use eksup::playbook::{char_replace, default_playbook_name};

#[test]
fn char_replace_turns_entities_back() {
    let text = "run &#x60;kubectl&#x60; &amp;lt;name&amp;gt; it&#x27;s &lt;a&gt; &quot;q&quot; x&#x3D;1".to_string();
    assert_eq!(char_replace(text), "run `kubectl` <name> it's <a> \"q\" x=1");
}

#[test]
fn char_replace_leaves_plain_text() {
    assert_eq!(char_replace("plain & simple; a < b".to_string()), "plain & simple; a < b");
    assert_eq!(char_replace(String::new()), "");
}

#[test]
fn char_replace_nested_entities() {
    assert_eq!(char_replace("&amp;lt;".to_string()), "<");
    assert_eq!(char_replace("&&lt;".to_string()), "&<");
    assert_eq!(char_replace("&amp;quot;".to_string()), "&amp;quot;");
}

#[test]
fn playbook_default_name() {
    assert_eq!(default_playbook_name("prod", "1.25"), "prod_v1.25_upgrade.md");
}

#[test]
fn kubernetes_version_strings() {
    assert_eq!(KubernetesVersion::V20.to_version_string(), "1.20");
    assert_eq!(KubernetesVersion::V24.to_version_string(), "1.24");
    assert!(KubernetesVersion::V24.is_latest());
    assert!(!KubernetesVersion::V22.is_latest());
    assert_eq!(KubernetesVersion::value_variants().len(), 5);
}

#[test]
fn compute_values() {
    assert_eq!(Compute::value_variants(), vec![Compute::EksManaged, Compute::SelfManaged, Compute::FargateProfile]);
    assert_eq!(Compute::EksManaged.to_possible_value(), "eks");
    assert_eq!(Compute::SelfManaged.to_possible_value(), "self");
    assert_eq!(Compute::FargateProfile.to_possible_value(), "fargate");
}

#[test]
fn argument_defaults() {
    assert_eq!(Strategy::default(), Strategy::InPlace);
    assert_eq!(OutputFormat::default(), OutputFormat::Json);
    assert_eq!(OutputType::default(), OutputType::Stdout);
}
