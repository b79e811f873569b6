//! The structured errors of the changelog rendering subsystem.

use vstd::prelude::*;

verus! {

/// Every failure of the rendering subsystem.
///
/// * `NotImplementedError` — truncation was needed, but no room was left for
///   the truncation marker after reserving its length.
/// * `MalformedDocument` — the changelog document lacks one of its anchors
///   (the first section heading, the latest version's bracket label, the
///   latest version's footnote line) or holds a section label that is neither
///   `Unreleased` nor a semantic version.
/// * `DuplicateVersion` — the same resolved version heads two sections.
/// * `RangeParseError` — a user-supplied version-range expression failed to
///   parse; `input` is the expression (after stripping a leading `v`) and
///   `reason` the parser's description of the failure.
#[derive(Debug)]
pub enum DoomError {
    NotImplementedError { functionality: String },
    MalformedDocument,
    DuplicateVersion,
    RangeParseError { input: String, reason: String },
}

/// What `message` returns for each error value.
pub open spec fn spec_message(e: DoomError) -> Seq<char> {
    match e {
        DoomError::NotImplementedError { functionality } => "This functionality '"@
            + functionality@ + "' is not implemented."@,
        DoomError::MalformedDocument => "The changelog document is malformed."@,
        DoomError::DuplicateVersion => "The changelog declares the same version twice."@,
        DoomError::RangeParseError { input, reason } => "Invalid version requirement '"@
            + input@ + "': "@ + reason@,
    }
}

impl DoomError {
    /// A human-readable description of the error.
    pub fn message(&self) -> (r: String)
        ensures
            r@ == spec_message(*self),
    {
        match self {
            DoomError::NotImplementedError { functionality } => {
                let mut s = String::from_str("This functionality '");
                s.append(functionality.as_str());
                s.append("' is not implemented.");
                s
            },
            DoomError::MalformedDocument => String::from_str(
                "The changelog document is malformed.",
            ),
            DoomError::DuplicateVersion => String::from_str(
                "The changelog declares the same version twice.",
            ),
            DoomError::RangeParseError { input, reason } => {
                let mut s = String::from_str("Invalid version requirement '");
                s.append(input.as_str());
                s.append("': ");
                s.append(reason.as_str());
                s
            },
        }
    }
}

} // verus!
