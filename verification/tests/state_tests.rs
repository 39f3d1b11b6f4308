use eks_version_exporter::Error;
use eks_version_exporter::clock::{current_time_date_string, current_time_epoch, format_epoch_millis};
use eks_version_exporter::feeds::{
    AWSRssFeedResponse, Channel, Entry, GithubFeedResponse, Item, KubectlVersionResponse, Version,
};
use eks_version_exporter::state::State;

fn good_kubectl() -> KubectlVersionResponse {
    KubectlVersionResponse {
        client_version: None,
        server_version: Some(Version {
            major: Some("1".to_string()),
            minor: Some("23".to_string()),
            git_version: Some("v1.23.8-eks-abc123".to_string()),
            git_commit: None,
            git_tree_state: None,
            build_date: None,
            go_version: None,
            compiler: None,
            platform: None,
        }),
    }
}

fn broken_kubectl() -> KubectlVersionResponse {
    KubectlVersionResponse { client_version: None, server_version: None }
}

fn good_rss() -> AWSRssFeedResponse {
    AWSRssFeedResponse {
        channel: Channel {
            title: "doc history".to_string(),
            items: vec![
                Item {
                    title: "Kubernetes version 1.24 support".to_string(),
                    link: "https://example.invalid/a".to_string(),
                },
                Item {
                    title: "Kubernetes version 1.23 support".to_string(),
                    link: "https://example.invalid/b".to_string(),
                },
            ],
        },
    }
}

fn good_atom() -> GithubFeedResponse {
    GithubFeedResponse {
        updated: "2024-01-01T00:00:00Z".to_string(),
        entrys: vec![
            Entry {
                title: "v1.25.2".to_string(),
                id: "tag:github.com,2008:Repository/20580498/v1.25.2".to_string(),
            },
            Entry {
                title: "v1.26.0".to_string(),
                id: "tag:github.com,2008:Repository/20580498/v1.26.0".to_string(),
            },
            Entry {
                title: "v1.27.0-rc.1".to_string(),
                id: "tag:github.com,2008:Repository/20580498/v1.27.0-rc.1".to_string(),
            },
        ],
    }
}

#[test]
fn a_refresh_resolves_the_whole_snapshot() {
    let st = State::new(&good_kubectl(), &good_rss(), &good_atom(), 0).unwrap();
    let snap = st.current();
    assert_eq!(
        (snap.server_version.major, snap.server_version.minor, snap.server_version.patch),
        (1, 23, 0)
    );
    assert_eq!(
        (snap.latest_eks_version.major, snap.latest_eks_version.minor, snap.latest_eks_version.patch),
        (1, 24, 0)
    );
    assert_eq!(
        (
            snap.latest_upstream_version.major,
            snap.latest_upstream_version.minor,
            snap.latest_upstream_version.patch
        ),
        (1, 26, 0)
    );
    assert_eq!(
        (
            snap.eol_threshold_version.major,
            snap.eol_threshold_version.minor,
            snap.eol_threshold_version.patch
        ),
        (1, 24, 0)
    );
    // 1.24.0 > 1.23.0 on both comparisons
    assert!(snap.is_outdated);
    assert!(snap.is_past_eol);
    assert_eq!(snap.resolved_at_ms, 0);
    assert_eq!(snap.resolved_at_text, "1970-01-01 00:00:00");
}

#[test]
fn construction_fails_when_a_source_fails() {
    assert!(matches!(
        State::new(&broken_kubectl(), &good_rss(), &good_atom(), 0),
        Err(Error::MissingField)
    ));
    let empty_rss = AWSRssFeedResponse {
        channel: Channel { title: "doc history".to_string(), items: vec![] },
    };
    assert!(matches!(
        State::new(&good_kubectl(), &empty_rss, &good_atom(), 0),
        Err(Error::NoCandidates)
    ));
}

#[test]
fn a_failed_refresh_leaves_the_snapshot_untouched() {
    let mut st = State::new(&good_kubectl(), &good_rss(), &good_atom(), 1000).unwrap();
    let before = st.current();
    // a simulated source outage: the decoded document misses its field
    let r = st.refresh(&broken_kubectl(), &good_rss(), &good_atom(), 2000);
    assert!(matches!(r, Err(Error::MissingField)));
    let after = st.current();
    assert_eq!(before.server_version.major, after.server_version.major);
    assert_eq!(before.server_version.minor, after.server_version.minor);
    assert_eq!(before.latest_eks_version.minor, after.latest_eks_version.minor);
    assert_eq!(before.latest_upstream_version.minor, after.latest_upstream_version.minor);
    assert_eq!(before.eol_threshold_version.minor, after.eol_threshold_version.minor);
    assert_eq!(before.is_outdated, after.is_outdated);
    assert_eq!(before.is_past_eol, after.is_past_eol);
    assert_eq!(before.resolved_at_ms, after.resolved_at_ms);
    assert_eq!(before.resolved_at_text, after.resolved_at_text);
}

#[test]
fn a_later_refresh_replaces_the_snapshot() {
    let mut st = State::new(&good_kubectl(), &good_rss(), &good_atom(), 1000).unwrap();
    let newer_atom = GithubFeedResponse {
        updated: "2024-06-01T00:00:00Z".to_string(),
        entrys: vec![Entry {
            title: "v1.30.1".to_string(),
            id: "tag:github.com,2008:Repository/20580498/v1.30.1".to_string(),
        }],
    };
    st.refresh(&good_kubectl(), &good_rss(), &newer_atom, 2000).unwrap();
    let snap = st.current();
    assert_eq!(snap.latest_upstream_version.minor, 30);
    assert_eq!(snap.eol_threshold_version.minor, 28);
    assert_eq!(snap.resolved_at_ms, 2000);
}

#[test]
fn invalid_threshold_surfaces_from_refresh() {
    let tiny_atom = GithubFeedResponse {
        updated: "2024-01-01T00:00:00Z".to_string(),
        entrys: vec![Entry {
            title: "v1.1.0".to_string(),
            id: "tag:github.com,2008:Repository/20580498/v1.1.0".to_string(),
        }],
    };
    assert!(matches!(
        State::new(&good_kubectl(), &good_rss(), &tiny_atom, 0),
        Err(Error::InvalidThreshold)
    ));
}

#[test]
fn epoch_formatting_is_fixed_for_a_given_millisecond() {
    assert_eq!(format_epoch_millis(0), "1970-01-01 00:00:00");
    assert_eq!(format_epoch_millis(86_400_000), "1970-01-02 00:00:00");
    assert_eq!(format_epoch_millis(1_700_000_000_000), "2023-11-14 22:13:20");
}

#[test]
fn the_clock_yields_a_formatted_timestamp() {
    let ms = current_time_epoch();
    let text = current_time_date_string();
    // the clock runs past the epoch and formats as date plus time
    assert!(ms > 0);
    assert_eq!(text.len(), 19);
}
