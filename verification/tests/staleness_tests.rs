use eks_version_exporter::Error;
use eks_version_exporter::staleness::evaluate;
use eks_version_exporter::version::Version;

#[test]
fn outdated_and_past_eol_server() {
    let server = Version::from_parts(1, 23, 0);
    let eks = Version::from_parts(1, 24, 0);
    let upstream = Version::from_parts(1, 26, 0);
    let out = evaluate(&server, &eks, &upstream).unwrap();
    assert_eq!(
        (out.eol_threshold.major, out.eol_threshold.minor, out.eol_threshold.patch),
        (1, 24, 0)
    );
    assert!(out.is_outdated);
    assert!(out.is_past_eol);
}

#[test]
fn current_server_is_neither_outdated_nor_past_eol() {
    let server = Version::from_parts(1, 25, 0);
    let eks = Version::from_parts(1, 24, 0);
    let upstream = Version::from_parts(1, 25, 0);
    let out = evaluate(&server, &eks, &upstream).unwrap();
    assert_eq!(
        (out.eol_threshold.major, out.eol_threshold.minor, out.eol_threshold.patch),
        (1, 23, 0)
    );
    assert!(!out.is_outdated);
    assert!(!out.is_past_eol);
}

#[test]
fn threshold_forces_patch_to_zero() {
    let server = Version::from_parts(1, 24, 2);
    let eks = Version::from_parts(1, 24, 0);
    let upstream = Version::from_parts(1, 26, 7);
    let out = evaluate(&server, &eks, &upstream).unwrap();
    assert_eq!(
        (out.eol_threshold.major, out.eol_threshold.minor, out.eol_threshold.patch),
        (1, 24, 0)
    );
    // 1.24.2 is not strictly below 1.24.0
    assert!(!out.is_past_eol);
}

#[test]
fn small_upstream_minor_fails_instead_of_underflowing() {
    let server = Version::from_parts(1, 0, 0);
    let eks = Version::from_parts(1, 0, 0);
    for minor in 0..2u64 {
        let upstream = Version::from_parts(1, minor, 0);
        assert!(matches!(
            evaluate(&server, &eks, &upstream),
            Err(Error::InvalidThreshold)
        ));
    }
    let upstream = Version::from_parts(1, 2, 0);
    let out = evaluate(&server, &eks, &upstream).unwrap();
    assert_eq!(out.eol_threshold.minor, 0);
}
