use eks_version_exporter::Error;
use eks_version_exporter::adapters::{
    get_latest_eks_k8s_version, get_latest_k8s_version, get_server_k8s_version,
};
use eks_version_exporter::feeds::{
    AWSRssFeedResponse, Channel, Entry, GithubFeedResponse, Item, KubectlVersionResponse, Version,
};

fn rss(titles: &[&str]) -> AWSRssFeedResponse {
    AWSRssFeedResponse {
        channel: Channel {
            title: "doc history".to_string(),
            items: titles
                .iter()
                .map(|t| Item { title: t.to_string(), link: "https://example.invalid".to_string() })
                .collect(),
        },
    }
}

fn atom(ids: &[&str]) -> GithubFeedResponse {
    GithubFeedResponse {
        updated: "2024-01-01T00:00:00Z".to_string(),
        entrys: ids
            .iter()
            .map(|i| Entry { title: "release".to_string(), id: i.to_string() })
            .collect(),
    }
}

fn kubectl(git_version: Option<&str>) -> KubectlVersionResponse {
    KubectlVersionResponse {
        client_version: None,
        server_version: Some(Version {
            major: Some("1".to_string()),
            minor: Some("23".to_string()),
            git_version: git_version.map(|s| s.to_string()),
            git_commit: None,
            git_tree_state: None,
            build_date: None,
            go_version: None,
            compiler: None,
            platform: None,
        }),
    }
}

#[test]
fn eks_first_match_wins_not_max() {
    let feed = rss(&["Kubernetes version 1.24 support", "Kubernetes version 1.23 support"]);
    let v = get_latest_eks_k8s_version(&feed).unwrap();
    assert_eq!((v.major, v.minor, v.patch), (1, 24, 0));

    // document order decides, even when a later item is numerically larger
    let feed = rss(&["Kubernetes version 1.23 support", "Kubernetes version 1.24 support"]);
    let v = get_latest_eks_k8s_version(&feed).unwrap();
    assert_eq!((v.major, v.minor, v.patch), (1, 23, 0));
}

#[test]
fn eks_marker_may_sit_inside_a_longer_title() {
    let feed = rss(&[
        "Now supporting extended troubleshooting guides",
        "Amazon EKS now supports Kubernetes version 1.28 for all clusters",
    ]);
    let v = get_latest_eks_k8s_version(&feed).unwrap();
    assert_eq!((v.major, v.minor, v.patch), (1, 28, 0));
}

#[test]
fn eks_items_without_marker_or_digit_are_excluded() {
    let feed = rss(&[
        "Kubernetes version support policy",
        "Kubernetes version x.y",
        "Kubernetes version 1.27 support",
    ]);
    let v = get_latest_eks_k8s_version(&feed).unwrap();
    assert_eq!((v.major, v.minor, v.patch), (1, 27, 0));
}

#[test]
fn eks_no_candidates_is_an_error() {
    let feed = rss(&["Release notes", "Pricing update"]);
    assert!(matches!(get_latest_eks_k8s_version(&feed), Err(Error::NoCandidates)));
    let empty = rss(&[]);
    assert!(matches!(get_latest_eks_k8s_version(&empty), Err(Error::NoCandidates)));
}

#[test]
fn upstream_greatest_minor_wins() {
    let feed = atom(&[
        "tag:github.com,2008:Repository/20580498/v1.23.5",
        "tag:github.com,2008:Repository/20580498/v1.24.1",
        "tag:github.com,2008:Repository/20580498/v1.22.9",
    ]);
    let v = get_latest_k8s_version(&feed).unwrap();
    assert_eq!((v.major, v.minor, v.patch), (1, 24, 1));
}

#[test]
fn upstream_prerelease_is_excluded_even_with_larger_minor() {
    let feed = atom(&[
        "tag:github.com,2008:Repository/20580498/v1.23.5",
        "tag:github.com,2008:Repository/20580498/v1.24.1",
        "tag:github.com,2008:Repository/20580498/v1.25.0-rc.1",
    ]);
    let v = get_latest_k8s_version(&feed).unwrap();
    assert_eq!((v.major, v.minor, v.patch), (1, 24, 1));
}

#[test]
fn upstream_tie_on_minor_keeps_the_last_entry() {
    let feed = atom(&[
        "tag:github.com,2008:Repository/20580498/v1.24.1",
        "tag:github.com,2008:Repository/20580498/v1.24.3",
        "tag:github.com,2008:Repository/20580498/v1.23.9",
    ]);
    let v = get_latest_k8s_version(&feed).unwrap();
    assert_eq!((v.major, v.minor, v.patch), (1, 24, 3));
}

#[test]
fn upstream_malformed_tags_are_skipped() {
    let feed = atom(&[
        "tag:github.com,2008:Repository/20580498/not-a-version",
        "tag:github.com,2008:Repository/20580498/v1.21.0",
    ]);
    let v = get_latest_k8s_version(&feed).unwrap();
    assert_eq!((v.major, v.minor, v.patch), (1, 21, 0));
}

#[test]
fn upstream_no_candidates_is_an_error() {
    let only_rc = atom(&["tag:github.com,2008:Repository/20580498/v1.25.0-rc.1"]);
    assert!(matches!(get_latest_k8s_version(&only_rc), Err(Error::NoCandidates)));
    let empty = atom(&[]);
    assert!(matches!(get_latest_k8s_version(&empty), Err(Error::NoCandidates)));
}

#[test]
fn server_version_keeps_major_minor_and_zeroes_patch() {
    let v = get_server_k8s_version(&kubectl(Some("v1.21.14-eks-abc123"))).unwrap();
    assert_eq!((v.major, v.minor, v.patch), (1, 21, 0));
    assert!(v.pre.is_empty());
}

#[test]
fn server_version_missing_fields_are_reported() {
    let resp = KubectlVersionResponse { client_version: None, server_version: None };
    assert!(matches!(get_server_k8s_version(&resp), Err(Error::MissingField)));
    assert!(matches!(get_server_k8s_version(&kubectl(None)), Err(Error::MissingField)));
}

#[test]
fn server_version_malformed_git_string_is_reported() {
    match get_server_k8s_version(&kubectl(Some("unknown"))) {
        Err(Error::MalformedVersion { raw }) => assert_eq!(raw, "unknown"),
        other => panic!("expected MalformedVersion, got {:?}", other),
    }
}
