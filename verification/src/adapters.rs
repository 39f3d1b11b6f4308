//! The three source adapters: each turns one decoded source document
//! into a single canonical version.
//!
//! - the control-plane adapter reads the git-describe-style string of
//!   the server version descriptor and keeps only major and minor;
//! - the supported-versions adapter keeps the first feed item, in
//!   document order, whose title carries the marker phrase
//!   `Kubernetes version ` followed by a numeric token (the feed is
//!   newest-first, so the first match is the newest);
//! - the upstream-release adapter reads the tag suffix of each entry
//!   identifier, drops prerelease builds and malformed tags, and keeps
//!   the entry with the numerically greatest minor component, the last
//!   such entry when several share it.

use vstd::prelude::*;

use crate::Error;
use crate::feeds::{AWSRssFeedResponse, Entry, GithubFeedResponse, Item, KubectlVersionResponse};
use crate::normalize::{normalize_chars, spec_normalize};
use crate::text::{chars_of, find_last_char, is_digit, lemma_find_last_char};
use crate::version::{Version, VersionView};

verus! {

/// The marker phrase that announces a version inside a feed title.
pub open spec fn marker() -> Seq<char> {
    "Kubernetes version "@
}

/// The marker phrase occurs at `i`, followed directly by a digit.
pub open spec fn marked_at(t: Seq<char>, i: int) -> bool {
    &&& 0 <= i
    &&& i + marker().len() < t.len()
    &&& t.subrange(i, i + marker().len()) == marker()
    &&& is_digit(t[i + marker().len()])
}

/// The least position where the marker phrase occurs followed by a
/// digit, or -1 when it never does.
pub open spec fn marker_pos(t: Seq<char>) -> int
    decreases t.len(),
{
    if t.len() <= marker().len() {
        -1
    } else if marked_at(t, 0) {
        0
    } else {
        let r = marker_pos(t.drop_first());
        if r < 0 {
            -1
        } else {
            r + 1
        }
    }
}

/// The end of the run of digits and dots that starts at `p`.
pub open spec fn run_end(t: Seq<char>, p: int) -> int
    decreases t.len() - p,
{
    if p < 0 || p >= t.len() {
        t.len() as int
    } else if is_digit(t[p]) || t[p] == '.' {
        run_end(t, p + 1)
    } else {
        p
    }
}

/// What a feed title yields: the version of the numeric token after
/// the first marker occurrence, when the title carries one and the
/// token normalizes.
pub open spec fn eks_candidate(t: Seq<char>) -> Option<VersionView> {
    let i = marker_pos(t);
    if i < 0 {
        None
    } else {
        let p = i + marker().len();
        spec_normalize(t.subrange(p, run_end(t, p)))
    }
}

/// The titles of a feed's items, in document order.
pub open spec fn titles_of(items: Seq<Item>) -> Seq<Seq<char>> {
    items.map(|i: int, it: Item| it.title@)
}

/// The first title, in document order, that yields a candidate decides
/// the result.
pub open spec fn eks_select(titles: Seq<Seq<char>>) -> Option<VersionView>
    decreases titles.len(),
{
    if titles.len() == 0 {
        None
    } else if eks_candidate(titles[0]) is Some {
        eks_candidate(titles[0])
    } else {
        eks_select(titles.drop_first())
    }
}

/// `marker_pos` finds the least marked position, or none exists.
proof fn lemma_marker_pos(t: Seq<char>)
    ensures
        -1 <= marker_pos(t) < t.len(),
        marker_pos(t) == -1 ==> forall|i: int| !marked_at(t, i),
        marker_pos(t) >= 0 ==> marked_at(t, marker_pos(t)) && forall|i: int|
            0 <= i < marker_pos(t) ==> !marked_at(t, i),
    decreases t.len(),
{
    if t.len() <= marker().len() {
        assert forall|i: int| !marked_at(t, i) by {}
    } else if marked_at(t, 0) {
    } else {
        let u = t.drop_first();
        lemma_marker_pos(u);
        assert forall|i: int| 0 <= i && marked_at(u, i) implies marked_at(t, i + 1) by {
            assert(u.subrange(i, i + marker().len()) =~= t.subrange(i + 1, i + 1 + marker().len()));
        }
        assert forall|i: int| i >= 1 && marked_at(t, i) implies marked_at(u, i - 1) by {
            assert(t.subrange(i, i + marker().len()) =~= u.subrange(i - 1, i - 1 + marker().len()));
        }
        let r = marker_pos(u);
        if r < 0 {
            assert forall|i: int| !marked_at(t, i) by {
                if i >= 1 {
                    assert(!marked_at(u, i - 1));
                }
            }
        } else {
            assert(marked_at(t, r + 1));
            assert forall|i: int| 0 <= i < r + 1 implies !marked_at(t, i) by {
                if i >= 1 {
                    assert(!marked_at(u, i - 1));
                }
            }
        }
    }
}

/// Finds the end of the digits-and-dots run that starts at `p`.
fn run_end_exec(cs: &Vec<char>, p: usize) -> (r: usize)
    requires
        p <= cs@.len(),
    ensures
        p <= r <= cs@.len(),
        r == run_end(cs@, p as int),
{
    let mut j: usize = p;
    while j < cs.len()
        invariant
            p <= j <= cs@.len(),
            run_end(cs@, p as int) == run_end(cs@, j as int),
        decreases cs@.len() - j,
    {
        let u = cs[j] as u32;
        if (48 <= u && u <= 57) || cs[j] == '.' {
            j = j + 1;
        } else {
            assert(run_end(cs@, j as int) == j);
            return j;
        }
    }
    j
}

/// Looks for the marker phrase, followed by a digit, in a title.
#[verifier::loop_isolation(false)]
fn find_marker(cs: &Vec<char>) -> (r: Option<usize>)
    ensures
        ({
            match r {
                Some(i) => marker_pos(cs@) == i,
                None => marker_pos(cs@) == -1,
            }
        }),
{
    let m = chars_of("Kubernetes version ");
    proof {
        lemma_marker_pos(cs@);
    }
    if cs.len() <= m.len() {
        proof {
            if marker_pos(cs@) >= 0 {
                assert(marked_at(cs@, marker_pos(cs@)));
            }
        }
        return None;
    }
    let mut i: usize = 0;
    // beyond this bound the marker and a digit no longer fit
    let last: usize = cs.len() - m.len();
    while i < last
        invariant
            m@ == marker(),
            cs@.len() > m@.len(),
            last == cs@.len() - m@.len(),
            i <= last,
            forall|k: int| 0 <= k < i ==> !marked_at(cs@, k),
            -1 <= marker_pos(cs@) < cs@.len(),
            marker_pos(cs@) == -1 ==> forall|k: int| !marked_at(cs@, k),
            marker_pos(cs@) >= 0 ==> marked_at(cs@, marker_pos(cs@)) && forall|k: int|
                0 <= k < marker_pos(cs@) ==> !marked_at(cs@, k),
        decreases last - i,
    {
        let mut j: usize = 0;
        let mut hit = true;
        while j < m.len()
            invariant
                m@ == marker(),
                i + m@.len() < cs@.len(),
                j <= m@.len(),
                hit || j == m@.len(),
                hit <==> forall|k: int| 0 <= k < j ==> cs@[i + k] == m@[k],
            decreases m@.len() - j,
        {
            proof {
                assert(i + j < cs@.len());
            }
            if cs[i + j] != m[j] {
                hit = false;
                proof {
                    assert(cs@[i + j] != m@[j as int]);
                }
                j = m.len();
            } else {
                proof {
                    assert(cs@[i + j] == m@[j as int]);
                    assert forall|k: int| 0 <= k < j + 1 implies cs@[i + k] == m@[k] by {
                        if k < j {
                            assert(cs@[i + k] == m@[k]);
                        }
                    }
                }
                j = j + 1;
            }
        }
        if hit {
            let u = cs[i + m.len()] as u32;
            if 48 <= u && u <= 57 {
                proof {
                    assert(cs@.subrange(i as int, i + m@.len()) =~= m@);
                    assert(marked_at(cs@, i as int));
                    if marker_pos(cs@) > i {
                        assert(!marked_at(cs@, i as int));
                    }
                }
                return Some(i);
            }
        }
        proof {
            if marked_at(cs@, i as int) {
                assert(cs@.subrange(i as int, i + marker().len())[0] == cs@[i as int]);
                assert forall|k: int| 0 <= k < m@.len() implies cs@[i + k] == m@[k] by {
                    assert(cs@.subrange(i as int, i + marker().len())[k] == cs@[i + k]);
                }
            }
        }
        i = i + 1;
    }
    proof {
        if marker_pos(cs@) >= 0 {
            let mp = marker_pos(cs@);
            assert(marked_at(cs@, mp));
            assert(mp + marker().len() < cs@.len());
        }
    }
    None
}

/// What one title yields, as executable code.
fn eks_candidate_exec(title: &str) -> (r: Option<Version>)
    ensures
        match r {
            Some(v) => eks_candidate(title@) == Some(v@),
            None => eks_candidate(title@) is None,
        },
{
    let cs = chars_of(title);
    let i = match find_marker(&cs) {
        Some(i) => i,
        None => {
            return None;
        },
    };
    proof {
        lemma_marker_pos(cs@);
        assert(marked_at(cs@, i as int));
    }
    let m = chars_of("Kubernetes version ");
    let n = cs.len();
    proof {
        assert(i + m@.len() < n);
    }
    let p = i + m.len();
    let e = run_end_exec(&cs, p);
    let mut token: Vec<char> = Vec::new();
    let mut j: usize = p;
    while j < e
        invariant
            p <= j <= e <= cs@.len(),
            token@ =~= cs@.subrange(p as int, j as int),
        decreases e - j,
    {
        token.push(cs[j]);
        assert(token@ =~= cs@.subrange(p as int, j + 1 as int));
        j = j + 1;
    }
    proof {
        assert(token@ =~= cs@.subrange(p as int, e as int));
    }
    normalize_chars(&token)
}

/// The newest version the supported-versions feed announces: the first
/// item, in document order, whose title carries the marker phrase and
/// a well-formed numeric token.
pub fn get_latest_eks_k8s_version(feed: &AWSRssFeedResponse) -> (r: Result<Version, Error>)
    ensures
        match r {
            Ok(v) => eks_select(titles_of(feed.channel.items@)) == Some(v@),
            Err(e) => e is NoCandidates && eks_select(titles_of(feed.channel.items@)) is None,
        },
{
    let ghost titles = titles_of(feed.channel.items@);
    let items = &feed.channel.items;
    proof {
        assert(titles.skip(0) =~= titles);
    }
    let mut k: usize = 0;
    while k < items.len()
        invariant
            k <= items@.len(),
            titles == titles_of(items@),
            items@ == feed.channel.items@,
            eks_select(titles) == eks_select(titles.skip(k as int)),
        decreases items@.len() - k,
    {
        let ghost rest = titles.skip(k as int);
        proof {
            assert(rest[0] == items@[k as int].title@);
            assert(rest.drop_first() =~= titles.skip(k + 1 as int));
        }
        match eks_candidate_exec(items[k].title.as_str()) {
            Some(v) => {
                proof {
                    assert(eks_select(rest) == eks_candidate(rest[0]));
                }
                return Ok(v);
            },
            None => {
                proof {
                    assert(eks_select(rest) == eks_select(rest.drop_first()));
                }
            },
        }
        k = k + 1;
    }
    proof {
        assert(titles.skip(titles.len() as int).len() == 0);
    }
    Err(Error::NoCandidates)
}

/// The tag suffix of an entry identifier: everything after the last
/// `/`, or the whole identifier when it has none.
pub open spec fn upstream_token(id: Seq<char>) -> Seq<char> {
    let i = find_last_char(id, '/');
    id.subrange(i + 1, id.len() as int)
}

/// What one release entry yields: the normalized tag suffix, unless it
/// is malformed or carries prerelease identifiers.
pub open spec fn upstream_candidate(id: Seq<char>) -> Option<VersionView> {
    match spec_normalize(upstream_token(id)) {
        Some(v) => if v.pre.len() == 0 {
            Some(v)
        } else {
            None
        },
        None => None,
    }
}

/// The identifiers of a feed's entries, in document order.
pub open spec fn ids_of(entries: Seq<Entry>) -> Seq<Seq<char>> {
    entries.map(|i: int, e: Entry| e.id@)
}

/// The surviving candidates of a release feed, in document order.
pub open spec fn upstream_candidates(ids: Seq<Seq<char>>) -> Seq<VersionView>
    decreases ids.len(),
{
    if ids.len() == 0 {
        Seq::<VersionView>::empty()
    } else {
        let front = upstream_candidates(ids.drop_last());
        match upstream_candidate(ids.last()) {
            Some(v) => front.push(v),
            None => front,
        }
    }
}

/// The selected candidate: the one with the greatest minor component,
/// the last in document order when several share it.
pub open spec fn pick_latest(cands: Seq<VersionView>) -> VersionView
    recommends
        cands.len() > 0,
    decreases cands.len(),
{
    if cands.len() <= 1 {
        cands[0]
    } else {
        let best = pick_latest(cands.drop_last());
        if cands.last().minor >= best.minor {
            cands.last()
        } else {
            best
        }
    }
}

/// Every surviving upstream candidate carries no prerelease
/// identifiers: a prerelease entry is excluded whatever its minor.
pub proof fn lemma_upstream_candidates_no_prerelease(ids: Seq<Seq<char>>)
    ensures
        forall|i: int| 0 <= i < upstream_candidates(ids).len() ==> (#[trigger] upstream_candidates(
            ids,
        )[i]).pre.len() == 0,
    decreases ids.len(),
{
    if ids.len() > 0 {
        let front = upstream_candidates(ids.drop_last());
        lemma_upstream_candidates_no_prerelease(ids.drop_last());
        match upstream_candidate(ids.last()) {
            Some(v) => {
                assert(v.pre.len() == 0);
                assert forall|i: int| 0 <= i < upstream_candidates(ids).len() implies (
                #[trigger] upstream_candidates(ids)[i]).pre.len() == 0 by {
                    if i < front.len() {
                        assert(upstream_candidates(ids)[i] == front[i]);
                    } else {
                        assert(upstream_candidates(ids)[i] == v);
                    }
                }
            },
            None => {},
        }
    }
}

/// The selected candidate is a candidate, and none has a greater
/// minor component.
pub proof fn lemma_pick_latest_is_max(cands: Seq<VersionView>)
    requires
        cands.len() > 0,
    ensures
        cands.contains(pick_latest(cands)),
        forall|i: int| 0 <= i < cands.len() ==> (#[trigger] cands[i]).minor <= pick_latest(
            cands,
        ).minor,
    decreases cands.len(),
{
    if cands.len() == 1 {
        assert(cands[0] == pick_latest(cands));
    } else {
        let front = cands.drop_last();
        lemma_pick_latest_is_max(front);
        let bf = pick_latest(front);
        assert(cands.contains(cands.last()));
        if exists|j: int| 0 <= j < front.len() && front[j] == bf {
            let j = choose|j: int| 0 <= j < front.len() && front[j] == bf;
            assert(cands[j] == bf);
            assert(cands.contains(bf));
        }
        assert forall|i: int| 0 <= i < cands.len() implies (#[trigger] cands[i]).minor
            <= pick_latest(cands).minor by {
            if i < cands.len() - 1 {
                assert(cands[i] == front[i]);
            }
        }
    }
}

/// The newest upstream release: among the entries whose tag normalizes
/// and carries no prerelease identifiers, the one with the greatest
/// minor component.
pub fn get_latest_k8s_version(feed: &GithubFeedResponse) -> (r: Result<Version, Error>)
    ensures
        ({
            let cands = upstream_candidates(ids_of(feed.entrys@));
            match r {
                Ok(v) => cands.len() > 0 && v@ == pick_latest(cands),
                Err(e) => e is NoCandidates && cands.len() == 0,
            }
        }),
{
    let ghost ids = ids_of(feed.entrys@);
    let entries = &feed.entrys;
    let mut best: Option<Version> = None;
    let mut k: usize = 0;
    while k < entries.len()
        invariant
            k <= entries@.len(),
            ids == ids_of(entries@),
            entries@ == feed.entrys@,
            ({
                let cands = upstream_candidates(ids.take(k as int));
                match best {
                    Some(b) => cands.len() > 0 && b@ == pick_latest(cands),
                    None => cands.len() == 0,
                }
            }),
        decreases entries@.len() - k,
    {
        let ghost prefix = ids.take(k as int);
        let ghost next = ids.take(k + 1 as int);
        proof {
            assert(next.drop_last() =~= prefix);
            assert(next.last() == entries@[k as int].id@);
        }
        let cand = upstream_candidate_exec(entries[k].id.as_str());
        match cand {
            Some(v) => {
                let take = match &best {
                    None => true,
                    Some(b) => v.minor >= b.minor,
                };
                proof {
                    let cands = upstream_candidates(next);
                    assert(cands == upstream_candidates(prefix).push(v@));
                    assert(cands.drop_last() =~= upstream_candidates(prefix));
                }
                if take {
                    best = Some(v);
                } else {
                    proof {
                        assert(upstream_candidates(next).last() == v@);
                    }
                }
            },
            None => {
                proof {
                    assert(upstream_candidates(next) == upstream_candidates(prefix));
                }
            },
        }
        k = k + 1;
    }
    proof {
        assert(ids.take(ids.len() as int) =~= ids);
    }
    match best {
        Some(v) => Ok(v),
        None => Err(Error::NoCandidates),
    }
}

/// What one entry identifier yields, as executable code.
fn upstream_candidate_exec(id: &str) -> (r: Option<Version>)
    ensures
        match r {
            Some(v) => upstream_candidate(id@) == Some(v@),
            None => upstream_candidate(id@) is None,
        },
{
    let cs = chars_of(id);
    proof {
        lemma_find_last_char(cs@, '/');
    }
    let start: usize = match find_last_in(&cs, '/') {
        Some(i) => i + 1,
        None => 0,
    };
    let mut token: Vec<char> = Vec::new();
    let mut j: usize = start;
    while j < cs.len()
        invariant
            start <= j <= cs@.len(),
            token@ =~= cs@.subrange(start as int, j as int),
        decreases cs@.len() - j,
    {
        token.push(cs[j]);
        assert(token@ =~= cs@.subrange(start as int, j + 1 as int));
        j = j + 1;
    }
    proof {
        assert(token@ =~= upstream_token(cs@));
    }
    match normalize_chars(&token) {
        Some(v) => {
            if v.has_prerelease() {
                None
            } else {
                Some(v)
            }
        },
        None => None,
    }
}

/// Finds the last occurrence of `c` in `cs`.
fn find_last_in(cs: &Vec<char>, c: char) -> (r: Option<usize>)
    ensures
        match r {
            Some(i) => i == find_last_char(cs@, c),
            None => find_last_char(cs@, c) == -1,
        },
{
    proof {
        lemma_find_last_char(cs@, c);
    }
    let mut j: usize = cs.len();
    while j > 0
        invariant
            j <= cs@.len(),
            forall|k: int| j <= k < cs@.len() ==> cs@[k] != c,
            -1 <= find_last_char(cs@, c) < cs@.len(),
            find_last_char(cs@, c) == -1 ==> forall|i: int| 0 <= i < cs@.len() ==> cs@[i] != c,
            find_last_char(cs@, c) >= 0 ==> cs@[find_last_char(cs@, c)] == c && forall|i: int|
                find_last_char(cs@, c) < i < cs@.len() ==> cs@[i] != c,
        decreases j,
    {
        if cs[j - 1] == c {
            proof {
                if find_last_char(cs@, c) > j - 1 {
                    assert(cs@[find_last_char(cs@, c)] != c);
                }
                if find_last_char(cs@, c) < j - 1 {
                    assert(cs@[j - 1] != c);
                }
            }
            return Some(j - 1);
        }
        j = j - 1;
    }
    proof {
        if find_last_char(cs@, c) >= 0 {
            assert(cs@[find_last_char(cs@, c)] == c);
        }
    }
    None
}

/// The control-plane version: the git-describe string of the server
/// descriptor, normalized and reduced to major and minor, the patch
/// forced to zero.
pub fn get_server_k8s_version(resp: &KubectlVersionResponse) -> (r: Result<Version, Error>)
    ensures
        match r {
            Ok(v) => {
                &&& resp.server_version is Some
                &&& resp.server_version->0.git_version is Some
                &&& ({
                    let git = resp.server_version->0.git_version->0@;
                    match spec_normalize(git) {
                        Some(n) => v@ == (VersionView {
                            major: n.major,
                            minor: n.minor,
                            patch: 0,
                            pre: Seq::<Seq<char>>::empty(),
                        }),
                        None => false,
                    }
                })
            },
            Err(e) => match e {
                Error::MissingField => resp.server_version is None || resp.server_version->0.git_version is None,
                Error::MalformedVersion { raw } => {
                    &&& resp.server_version is Some
                    &&& resp.server_version->0.git_version is Some
                    &&& raw@ == resp.server_version->0.git_version->0@
                    &&& spec_normalize(raw@) is None
                },
                _ => false,
            },
        },
{
    let sv = match &resp.server_version {
        Some(sv) => sv,
        None => {
            return Err(Error::MissingField);
        },
    };
    let git = match &sv.git_version {
        Some(g) => g,
        None => {
            return Err(Error::MissingField);
        },
    };
    match crate::normalize::normalize(git.as_str()) {
        Ok(v) => Ok(Version::from_parts(v.major, v.minor, 0)),
        Err(e) => Err(e),
    }
}

} // verus!
