//! The decoded shapes of the three upstream sources: the version
//! report of the control plane, the RSS document-history feed of
//! supported versions, and the Atom feed of upstream releases. The
//! fetch and decode layer fills these with plain values; the adapters
//! read them.

use vstd::prelude::*;

verus! {

/// The decoded output of the version-reporting command.
#[derive(Debug)]
pub struct KubectlVersionResponse {
    pub client_version: Option<Version>,
    pub server_version: Option<Version>,
}

/// One version descriptor of the version-reporting command; the engine
/// reads only `git_version`.
#[derive(Debug)]
pub struct Version {
    pub major: Option<String>,
    pub minor: Option<String>,
    pub git_version: Option<String>,
    pub git_commit: Option<String>,
    pub git_tree_state: Option<String>,
    pub build_date: Option<String>,
    pub go_version: Option<String>,
    pub compiler: Option<String>,
    pub platform: Option<String>,
}

/// The decoded RSS document of supported versions.
#[derive(Debug)]
pub struct AWSRssFeedResponse {
    pub channel: Channel,
}

/// The single channel of the RSS document.
#[derive(Debug)]
pub struct Channel {
    pub title: String,
    pub items: Vec<Item>,
}

/// One RSS item; the engine reads only the title.
#[derive(Debug)]
pub struct Item {
    pub title: String,
    pub link: String,
}

/// The decoded Atom feed of upstream releases.
#[derive(Debug)]
pub struct GithubFeedResponse {
    pub updated: String,
    pub entrys: Vec<Entry>,
}

/// One Atom entry; the engine reads only the identifier, whose path
/// suffix carries the release tag.
#[derive(Debug)]
pub struct Entry {
    pub title: String,
    pub id: String,
}

} // verus!
