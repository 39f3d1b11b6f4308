//! The refresh state: the last fully resolved snapshot, replaced as a
//! whole by a successful refresh and left untouched by a failed one.

use vstd::prelude::*;

use crate::Error;
use crate::adapters::{
    eks_select, get_latest_eks_k8s_version, get_latest_k8s_version, get_server_k8s_version,
    ids_of, pick_latest, titles_of, upstream_candidates,
};
use crate::clock::{clamp_ms, date_string_of, format_epoch_millis};
use crate::feeds::{AWSRssFeedResponse, GithubFeedResponse, KubectlVersionResponse};
use crate::normalize::spec_normalize;
use crate::staleness::{eol_threshold_view, evaluate};
use crate::version::{Version, VersionView, vlt};

verus! {

/// One immutable result of a refresh cycle.
#[derive(Debug)]
pub struct Snapshot {
    pub server_version: Version,
    pub latest_eks_version: Version,
    pub latest_upstream_version: Version,
    pub eol_threshold_version: Version,
    pub is_outdated: bool,
    pub is_past_eol: bool,
    pub resolved_at_ms: u128,
    pub resolved_at_text: String,
}

/// Two snapshots that carry the same values.
pub open spec fn snap_like(a: Snapshot, b: Snapshot) -> bool {
    &&& a.server_version@ == b.server_version@
    &&& a.latest_eks_version@ == b.latest_eks_version@
    &&& a.latest_upstream_version@ == b.latest_upstream_version@
    &&& a.eol_threshold_version@ == b.eol_threshold_version@
    &&& a.is_outdated == b.is_outdated
    &&& a.is_past_eol == b.is_past_eol
    &&& a.resolved_at_ms == b.resolved_at_ms
    &&& a.resolved_at_text@ == b.resolved_at_text@
}

impl Snapshot {
    /// A value-equal copy of the snapshot.
    pub fn duplicate(&self) -> (r: Snapshot)
        ensures
            snap_like(r, *self),
    {
        Snapshot {
            server_version: self.server_version.duplicate(),
            latest_eks_version: self.latest_eks_version.duplicate(),
            latest_upstream_version: self.latest_upstream_version.duplicate(),
            eol_threshold_version: self.eol_threshold_version.duplicate(),
            is_outdated: self.is_outdated,
            is_past_eol: self.is_past_eol,
            resolved_at_ms: self.resolved_at_ms,
            resolved_at_text: self.resolved_at_text.clone(),
        }
    }
}

/// What the control-plane source resolves to: the server descriptor's
/// git-describe string, normalized, with the patch forced to zero.
pub open spec fn server_result_view(k: KubectlVersionResponse) -> Option<VersionView> {
    match k.server_version {
        Some(sv) => match sv.git_version {
            Some(g) => match spec_normalize(g@) {
                Some(n) => Some(
                    VersionView {
                        major: n.major,
                        minor: n.minor,
                        patch: 0,
                        pre: Seq::<Seq<char>>::empty(),
                    },
                ),
                None => None,
            },
            None => None,
        },
        None => None,
    }
}

/// The engine's state: the last-resolved snapshot.
pub struct State {
    snapshot: Snapshot,
}

impl State {
    /// The held snapshot, as a specification value.
    pub closed spec fn snap(self) -> Snapshot {
        self.snapshot
    }

    /// Builds a state by performing one refresh on the given decoded
    /// sources; a failed first refresh fails the construction, so no
    /// partially initialized state is ever observable.
    pub fn new(
        kubectl: &KubectlVersionResponse,
        eks_feed: &AWSRssFeedResponse,
        upstream_feed: &GithubFeedResponse,
        now_ms: u128,
    ) -> (r: Result<State, Error>)
        ensures
            ({
                let sv = server_result_view(*kubectl);
                let ev = eks_select(titles_of(eks_feed.channel.items@));
                let cands = upstream_candidates(ids_of(upstream_feed.entrys@));
                &&& (r is Ok <==> sv is Some && ev is Some && cands.len() > 0 && pick_latest(
                    cands,
                ).minor >= 2)
                &&& r is Ok ==> snapshot_resolves(
                    r->Ok_0.snap(),
                    sv->0,
                    ev->0,
                    pick_latest(cands),
                    now_ms,
                )
                &&& r is Err ==> refresh_error_fits(
                    r->Err_0,
                    *kubectl,
                    ev,
                    cands,
                )
            }),
    {
        let mut st = State {
            snapshot: Snapshot {
                server_version: Version::zero(),
                latest_eks_version: Version::zero(),
                latest_upstream_version: Version::zero(),
                eol_threshold_version: Version::zero(),
                is_outdated: false,
                is_past_eol: false,
                resolved_at_ms: 0,
                resolved_at_text: String::new(),
            },
        };
        match st.refresh(kubectl, eks_feed, upstream_feed, now_ms) {
            Ok(_) => Ok(st),
            Err(e) => Err(e),
        }
    }

    /// Re-resolves all three sources and replaces the snapshot as a
    /// whole; on any failure the previous snapshot is left untouched
    /// and the failure is surfaced.
    pub fn refresh(
        &mut self,
        kubectl: &KubectlVersionResponse,
        eks_feed: &AWSRssFeedResponse,
        upstream_feed: &GithubFeedResponse,
        now_ms: u128,
    ) -> (r: Result<(), Error>)
        ensures
            r is Err ==> *final(self) == *old(self),
            ({
                let sv = server_result_view(*kubectl);
                let ev = eks_select(titles_of(eks_feed.channel.items@));
                let cands = upstream_candidates(ids_of(upstream_feed.entrys@));
                &&& (r is Ok <==> sv is Some && ev is Some && cands.len() > 0 && pick_latest(
                    cands,
                ).minor >= 2)
                &&& r is Ok ==> snapshot_resolves(
                    final(self).snap(),
                    sv->0,
                    ev->0,
                    pick_latest(cands),
                    now_ms,
                )
                &&& r is Err ==> refresh_error_fits(
                    r->Err_0,
                    *kubectl,
                    ev,
                    cands,
                )
            }),
    {
        let server = match get_server_k8s_version(kubectl) {
            Ok(v) => v,
            Err(e) => {
                return Err(e);
            },
        };
        let eks = match get_latest_eks_k8s_version(eks_feed) {
            Ok(v) => v,
            Err(e) => {
                return Err(e);
            },
        };
        let upstream = match get_latest_k8s_version(upstream_feed) {
            Ok(v) => v,
            Err(e) => {
                return Err(e);
            },
        };
        let outcome = match evaluate(&server, &eks, &upstream) {
            Ok(o) => o,
            Err(e) => {
                return Err(e);
            },
        };
        let ms64: u64 = if now_ms > u64::MAX as u128 {
            u64::MAX
        } else {
            now_ms as u64
        };
        let text = format_epoch_millis(ms64);
        self.snapshot = Snapshot {
            server_version: server,
            latest_eks_version: eks,
            latest_upstream_version: upstream,
            eol_threshold_version: outcome.eol_threshold,
            is_outdated: outcome.is_outdated,
            is_past_eol: outcome.is_past_eol,
            resolved_at_ms: now_ms,
            resolved_at_text: text,
        };
        Ok(())
    }

    /// The last resolved snapshot, as a value-equal copy; never touches
    /// any source.
    pub fn current(&self) -> (r: Snapshot)
        ensures
            snap_like(r, self.snap()),
    {
        self.snapshot.duplicate()
    }
}

/// The snapshot holds exactly what one successful resolution yields.
pub open spec fn snapshot_resolves(
    snap: Snapshot,
    sv: VersionView,
    ev: VersionView,
    uv: VersionView,
    now_ms: u128,
) -> bool {
    &&& snap.server_version@ == sv
    &&& snap.latest_eks_version@ == ev
    &&& snap.latest_upstream_version@ == uv
    &&& snap.eol_threshold_version@ == eol_threshold_view(uv)
    &&& snap.is_outdated == vlt(sv, ev)
    &&& snap.is_past_eol == vlt(sv, eol_threshold_view(uv))
    &&& snap.resolved_at_ms == now_ms
    &&& snap.resolved_at_text@ == date_string_of(clamp_ms(now_ms))
}

/// The error a failed refresh surfaces comes from its first failing
/// stage.
pub open spec fn refresh_error_fits(
    e: Error,
    kubectl: KubectlVersionResponse,
    ev: Option<VersionView>,
    cands: Seq<VersionView>,
) -> bool {
    if kubectl.server_version is None || kubectl.server_version->0.git_version is None {
        e is MissingField
    } else if spec_normalize(kubectl.server_version->0.git_version->0@) is None {
        e matches Error::MalformedVersion { raw } && raw@
            == kubectl.server_version->0.git_version->0@
    } else if ev is None || cands.len() == 0 {
        e is NoCandidates
    } else {
        e is InvalidThreshold
    }
}

} // verus!
