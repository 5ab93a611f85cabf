use eksup::error::CheckError;
use eksup::version::{get_target_version, normalize_version, parse_minor_version};

#[test]
fn parse_minor_of_provider_version() {
    assert_eq!(parse_minor_version("v1.20.7-eks-123456"), Ok(20));
}

#[test]
fn parse_minor_of_plain_version() {
    assert_eq!(parse_minor_version("v1.22.7"), Ok(22));
    assert_eq!(parse_minor_version("1.24"), Ok(24));
}

#[test]
fn parse_minor_rejects_single_segment() {
    assert_eq!(parse_minor_version("1"), Err(CheckError::MalformedVersion));
    assert_eq!(parse_minor_version(""), Err(CheckError::MalformedVersion));
}

#[test]
fn parse_minor_rejects_non_numeric_minor() {
    assert_eq!(parse_minor_version("v1.x.3"), Err(CheckError::MalformedVersion));
    assert_eq!(parse_minor_version("1..3"), Err(CheckError::MalformedVersion));
    assert_eq!(parse_minor_version("1.20-eks"), Err(CheckError::MalformedVersion));
}

#[test]
fn parse_minor_rejects_overflow() {
    assert_eq!(parse_minor_version("1.4294967296"), Err(CheckError::MalformedVersion));
    assert_eq!(parse_minor_version("1.4294967295"), Ok(4294967295));
}

#[test]
fn normalize_provider_version() {
    assert_eq!(normalize_version("v1.20.7-eks-123456"), Ok("1.20".to_string()));
}

#[test]
fn normalize_is_idempotent() {
    let once = normalize_version("v1.23.4-eks-abcdef").unwrap();
    assert_eq!(once, "1.23");
    assert_eq!(normalize_version(&once), Ok(once.clone()));
}

#[test]
fn normalize_without_dot_fails() {
    assert_eq!(normalize_version("v1"), Err(CheckError::MalformedVersion));
}

#[test]
fn target_version_is_next_minor() {
    assert_eq!(get_target_version("1.24"), Ok("1.25".to_string()));
    assert_eq!(get_target_version("v1.9.2-eks-1"), Ok("1.10".to_string()));
    assert_eq!(get_target_version("1.4294967295"), Ok("1.4294967296".to_string()));
}

#[test]
fn target_version_of_malformed_fails() {
    assert_eq!(get_target_version("latest"), Err(CheckError::MalformedVersion));
}

#[test]
fn parse_minor_accepts_leading_plus() {
    assert_eq!(parse_minor_version("1.+5"), Ok(5));
    assert_eq!(parse_minor_version("1.+5.2"), Ok(5));
    assert_eq!(parse_minor_version("1.+"), Err(CheckError::MalformedVersion));
    assert_eq!(parse_minor_version("1.-5"), Err(CheckError::MalformedVersion));
    assert_eq!(parse_minor_version("1.++5"), Err(CheckError::MalformedVersion));
}

#[test]
fn normalize_rejects_non_numeric_segments() {
    assert_eq!(normalize_version("1.x"), Err(CheckError::MalformedVersion));
    assert_eq!(normalize_version("abc.5"), Err(CheckError::MalformedVersion));
    assert_eq!(normalize_version("v.5"), Err(CheckError::MalformedVersion));
    assert_eq!(normalize_version("1."), Err(CheckError::MalformedVersion));
    assert_eq!(normalize_version("v1a.5"), Err(CheckError::MalformedVersion));
}

#[test]
fn target_version_after_plus_minor() {
    assert_eq!(get_target_version("1.+5"), Ok("1.6".to_string()));
}
