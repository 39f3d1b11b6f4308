//! The canonical version value: three numeric components and an ordered
//! sequence of prerelease identifiers, with semantic-version precedence
//! as far as the engine needs it.

use vstd::prelude::*;

use crate::text::{dec_digits, render_u64, string_from_chars};

verus! {

/// The mathematical value of a [`Version`].
#[verifier::ext_equal]
pub ghost struct VersionView {
    pub major: nat,
    pub minor: nat,
    pub patch: nat,
    pub pre: Seq<Seq<char>>,
}

/// A canonical version: `major.minor.patch` plus the prerelease
/// identifiers that followed a `-` in the raw token. Build metadata is
/// never kept. Ordering compares the numeric components and ranks a
/// version with prerelease identifiers below the same version without
/// them.
#[derive(Debug)]
pub struct Version {
    pub major: u64,
    pub minor: u64,
    pub patch: u64,
    pub pre: Vec<String>,
}

impl View for Version {
    type V = VersionView;

    open spec fn view(&self) -> VersionView {
        VersionView {
            major: self.major as nat,
            minor: self.minor as nat,
            patch: self.patch as nat,
            pre: self.pre.deep_view(),
        }
    }
}

/// Strict precedence: numeric components first, then a non-empty
/// prerelease sequence ranks below an empty one.
pub open spec fn vlt(a: VersionView, b: VersionView) -> bool {
    ||| a.major < b.major
    ||| (a.major == b.major && a.minor < b.minor)
    ||| (a.major == b.major && a.minor == b.minor && a.patch < b.patch)
    ||| (a.major == b.major && a.minor == b.minor && a.patch == b.patch && a.pre.len() > 0
        && b.pre.len() == 0)
}

/// The dotted decimal rendering `major.minor.patch` of a version value.
pub open spec fn render_view(v: VersionView) -> Seq<char> {
    dec_digits(v.major) + seq!['.'] + dec_digits(v.minor) + seq!['.'] + dec_digits(v.patch)
}

impl Version {
    /// A version from its three numeric components, with no prerelease
    /// identifiers.
    pub fn from_parts(major: u64, minor: u64, patch: u64) -> (r: Version)
        ensures
            r@ == (VersionView {
                major: major as nat,
                minor: minor as nat,
                patch: patch as nat,
                pre: Seq::<Seq<char>>::empty(),
            }),
    {
        let r = Version { major, minor, patch, pre: Vec::new() };
        proof {
            assert(r.pre.deep_view() =~= Seq::<Seq<char>>::empty());
        }
        r
    }

    /// The all-zero version that a state starts from.
    pub fn zero() -> (r: Version)
        ensures
            r@ == (VersionView {
                major: 0,
                minor: 0,
                patch: 0,
                pre: Seq::<Seq<char>>::empty(),
            }),
    {
        Version::from_parts(0, 0, 0)
    }

    /// Whether `self` strictly precedes `other`.
    pub fn lt(&self, other: &Version) -> (r: bool)
        ensures
            r == vlt(self@, other@),
    {
        if self.major != other.major {
            self.major < other.major
        } else if self.minor != other.minor {
            self.minor < other.minor
        } else if self.patch != other.patch {
            self.patch < other.patch
        } else {
            proof {
                assert(self.pre.deep_view().len() == self.pre@.len());
                assert(other.pre.deep_view().len() == other.pre@.len());
            }
            self.pre.len() > 0 && other.pre.len() == 0
        }
    }

    /// Whether the version carries at least one prerelease identifier.
    pub fn has_prerelease(&self) -> (r: bool)
        ensures
            r == (self@.pre.len() > 0),
    {
        proof {
            assert(self.pre.deep_view().len() == self.pre@.len());
        }
        self.pre.len() > 0
    }

    /// The dotted decimal rendering `major.minor.patch`; prerelease
    /// identifiers are not rendered.
    pub fn render(&self) -> (r: String)
        ensures
            r@ == render_view(self@),
    {
        let mut chars = render_u64(self.major);
        chars.push('.');
        let mut m = render_u64(self.minor);
        chars.append(&mut m);
        chars.push('.');
        let mut p = render_u64(self.patch);
        chars.append(&mut p);
        proof {
            assert(chars@ =~= render_view(self@));
        }
        string_from_chars(&chars)
    }

    /// An equal copy of the version.
    pub fn duplicate(&self) -> (r: Version)
        ensures
            r@ == self@,
    {
        let mut pre: Vec<String> = Vec::new();
        let mut i: usize = 0;
        while i < self.pre.len()
            invariant
                i <= self.pre@.len(),
                pre@ =~= self.pre@.take(i as int),
            decreases self.pre@.len() - i,
        {
            pre.push(self.pre[i].clone());
            assert(pre@ =~= self.pre@.take(i + 1 as int));
            i = i + 1;
        }
        assert(pre@ =~= self.pre@);
        let r = Version { major: self.major, minor: self.minor, patch: self.patch, pre };
        proof {
            assert(r.pre.deep_view() =~= self.pre.deep_view());
        }
        r
    }
}

} // verus!
