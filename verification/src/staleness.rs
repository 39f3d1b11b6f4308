//! The staleness evaluator: from the resolved server, supported and
//! upstream versions it computes the end-of-life threshold and the two
//! verdict flags.

use vstd::prelude::*;

use crate::Error;
use crate::version::{Version, VersionView, vlt};

verus! {

/// The end-of-life threshold: the upstream version two minors back,
/// patch forced to zero, no prerelease.
pub open spec fn eol_threshold_view(u: VersionView) -> VersionView
    recommends
        u.minor >= 2,
{
    VersionView {
        major: u.major,
        minor: (u.minor - 2) as nat,
        patch: 0,
        pre: Seq::<Seq<char>>::empty(),
    }
}

/// The outcome of one evaluation.
#[derive(Debug)]
pub struct Evaluation {
    pub eol_threshold: Version,
    pub is_outdated: bool,
    pub is_past_eol: bool,
}

/// Evaluates staleness: the server is outdated when the newest
/// supported version strictly exceeds it, and past end-of-life when
/// the threshold (upstream minus two minors, patch zero) strictly
/// exceeds it. An upstream minor below two cannot yield a threshold.
pub fn evaluate(server: &Version, latest_eks: &Version, latest_upstream: &Version) -> (r: Result<
    Evaluation,
    Error,
>)
    ensures
        latest_upstream@.minor < 2 <==> r is Err,
        r is Err ==> r->Err_0 is InvalidThreshold,
        r is Ok ==> ({
            let ev = r->Ok_0;
            &&& ev.eol_threshold@ == eol_threshold_view(latest_upstream@)
            &&& ev.is_outdated == vlt(server@, latest_eks@)
            &&& ev.is_past_eol == vlt(server@, eol_threshold_view(latest_upstream@))
        }),
{
    if latest_upstream.minor < 2 {
        return Err(Error::InvalidThreshold);
    }
    let eol = Version::from_parts(latest_upstream.major, latest_upstream.minor - 2, 0);
    proof {
        assert(eol@ =~= eol_threshold_view(latest_upstream@));
    }
    let is_outdated = server.lt(latest_eks);
    let is_past_eol = server.lt(&eol);
    Ok(Evaluation { eol_threshold: eol, is_outdated, is_past_eol })
}

} // verus!
