use eks_version_exporter::Error;
use eks_version_exporter::normalize::normalize;

#[test]
fn strips_tag_marker_and_synthesizes_patch() {
    let v = normalize("v1.21").unwrap();
    assert_eq!(v.major, 1);
    assert_eq!(v.minor, 21);
    assert_eq!(v.patch, 0);
    assert!(v.pre.is_empty());
}

#[test]
fn keeps_three_components() {
    let v = normalize("1.21.4").unwrap();
    assert_eq!(v.major, 1);
    assert_eq!(v.minor, 21);
    assert_eq!(v.patch, 4);
    assert!(v.pre.is_empty());
}

#[test]
fn rejects_single_component() {
    match normalize("v1") {
        Err(Error::MalformedVersion { raw }) => assert_eq!(raw, "v1"),
        other => panic!("expected MalformedVersion, got {:?}", other),
    }
}

#[test]
fn rejects_empty_token() {
    assert!(matches!(normalize(""), Err(Error::MalformedVersion { .. })));
    assert!(matches!(normalize("v"), Err(Error::MalformedVersion { .. })));
}

#[test]
fn digit_led_token_is_not_stripped() {
    let v = normalize("12.34").unwrap();
    assert_eq!(v.major, 12);
    assert_eq!(v.minor, 34);
    assert_eq!(v.patch, 0);
}

#[test]
fn rejects_four_components_and_empty_components() {
    assert!(matches!(normalize("1.2.3.4"), Err(Error::MalformedVersion { .. })));
    assert!(matches!(normalize("1..2"), Err(Error::MalformedVersion { .. })));
    assert!(matches!(normalize("1.2."), Err(Error::MalformedVersion { .. })));
}

#[test]
fn rejects_non_numeric_component_and_overflow() {
    assert!(matches!(normalize("1.2x.3"), Err(Error::MalformedVersion { .. })));
    // one past u64::MAX
    assert!(matches!(
        normalize("1.18446744073709551616"),
        Err(Error::MalformedVersion { .. })
    ));
    // exactly u64::MAX still parses
    let v = normalize("1.18446744073709551615").unwrap();
    assert_eq!(v.minor, u64::MAX);
}

#[test]
fn keeps_prerelease_identifiers() {
    let v = normalize("v1.25.0-rc.1").unwrap();
    assert_eq!(v.major, 1);
    assert_eq!(v.minor, 25);
    assert_eq!(v.patch, 0);
    assert_eq!(v.pre, vec!["rc".to_string(), "1".to_string()]);
}

#[test]
fn drops_build_metadata() {
    let v = normalize("1.2.3+k3s1").unwrap();
    assert_eq!(v.major, 1);
    assert_eq!(v.minor, 2);
    assert_eq!(v.patch, 3);
    assert!(v.pre.is_empty());
}

#[test]
fn rejects_empty_prerelease() {
    assert!(matches!(normalize("1.2.3-"), Err(Error::MalformedVersion { .. })));
    assert!(matches!(normalize("1.2.3-rc."), Err(Error::MalformedVersion { .. })));
}

#[test]
fn eks_style_git_version_normalizes() {
    let v = normalize("v1.21.14-eks-abc123").unwrap();
    assert_eq!(v.major, 1);
    assert_eq!(v.minor, 21);
    assert_eq!(v.patch, 14);
    assert_eq!(v.pre, vec!["eks-abc123".to_string()]);
}

#[test]
fn round_trip_is_idempotent() {
    // parse -> format -> parse yields the same version
    let v = normalize("1.21.4").unwrap();
    let rendered = v.render();
    assert_eq!(rendered, "1.21.4");
    let again = normalize(rendered.as_str()).unwrap();
    assert_eq!(again.major, v.major);
    assert_eq!(again.minor, v.minor);
    assert_eq!(again.patch, v.patch);
    assert!(again.pre.is_empty());

    let w = normalize("v1.21").unwrap();
    let rendered_w = w.render();
    assert_eq!(rendered_w, "1.21.0");
    let again_w = normalize(rendered_w.as_str()).unwrap();
    assert_eq!(again_w.major, w.major);
    assert_eq!(again_w.minor, w.minor);
    assert_eq!(again_w.patch, w.patch);
}

#[test]
fn ordering_follows_precedence() {
    let a = normalize("1.17.0").unwrap();
    let b = normalize("1.17.4").unwrap();
    assert!(a.lt(&b));
    assert!(!b.lt(&a));
    // a prerelease ranks below the same version without one
    let rc = normalize("1.25.0-rc.1").unwrap();
    let rel = normalize("1.25.0").unwrap();
    assert!(rc.lt(&rel));
    assert!(!rel.lt(&rc));
    assert!(!rel.lt(&rel));
}
