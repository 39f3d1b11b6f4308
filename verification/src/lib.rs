//! Version-resolution and staleness-evaluation engine for a Kubernetes
//! cluster exporter: normalizes raw version tokens from three upstream
//! sources into a canonical three-component version, decides whether the
//! running control plane is outdated or past the upstream end-of-life
//! window, and keeps the last fully resolved snapshot.

use vstd::prelude::*;

pub mod adapters;
pub mod clock;
pub mod feeds;
pub mod normalize;
pub mod staleness;
pub mod state;
pub mod text;
pub mod version;

verus! {

/// Every failure the engine can report.
#[derive(Debug)]
pub enum Error {
    /// A source could not be fetched or decoded (transport or process failure).
    SourceUnavailable { detail: String },
    /// A raw token could not be reduced to a dotted numeric version.
    MalformedVersion { raw: String },
    /// A feed yielded zero usable versions after filtering.
    NoCandidates,
    /// An expected field was absent from a decoded source document.
    MissingField,
    /// The end-of-life threshold could not be computed without underflow.
    InvalidThreshold,
}

} // verus!
