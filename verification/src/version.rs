//! Semantic versions as plain values, with the semver crate doing the
//! parsing, ordering and range matching behind trusted wrappers.

use vstd::prelude::*;

verus! {

/// A semantic version held as plain values. `raw` is the source text the
/// version was parsed from (or rendered to), so that the semver crate can
/// recover the same version when two versions are compared or matched
/// against a range.
pub struct Version {
    pub major: u64,
    pub minor: u64,
    pub patch: u64,
    pub pre: String,
    pub build: String,
    pub raw: String,
}

/// The plain view of a version: major, minor and patch numbers, pre-release
/// text and build metadata text.
pub open spec fn version_view(v: Version) -> (u64, u64, u64, Seq<char>, Seq<char>) {
    (v.major, v.minor, v.patch, v.pre@, v.build@)
}

/// What `semver::Version::parse` returns on a text: `None` where it fails,
/// otherwise the parsed version's plain view. The result depends on the text
/// alone.
pub uninterp spec fn semver_parse(s: Seq<char>) -> Option<(u64, u64, u64, Seq<char>, Seq<char>)>;

/// Whether `a` orders strictly before `b` in the semver crate's total order
/// on versions (semver precedence, with build metadata as the tiebreaker).
/// The result depends on the two views alone.
pub uninterp spec fn semver_lt(
    a: (u64, u64, u64, Seq<char>, Seq<char>),
    b: (u64, u64, u64, Seq<char>, Seq<char>),
) -> bool;

/// Whether `semver::VersionReq::parse` accepts a range expression.
pub uninterp spec fn req_ok(s: Seq<char>) -> bool;

/// The text of the error that `semver::VersionReq::parse` reports on a range
/// expression it rejects.
pub uninterp spec fn req_err_text(s: Seq<char>) -> Seq<char>;

/// Whether the version with the given view satisfies the range expression,
/// as `semver::VersionReq::matches` decides it.
pub uninterp spec fn req_matches(req: Seq<char>, v: (u64, u64, u64, Seq<char>, Seq<char>)) -> bool;

impl Version {
    /// A version is well-formed when its source text parses back to exactly
    /// its fields; every version the library hands out is.
    pub open spec fn wf(self) -> bool {
        semver_parse(self.raw@) == Some(version_view(self))
    }
}

/// Relies on `semver::Version::parse`: it either rejects the text or returns
/// the version the text denotes, whose components the fields copy.
#[verifier::external_body]
pub(crate) fn parse_version(s: &str) -> (r: Option<Version>)
    ensures
        match r {
            Some(v) => semver_parse(s@) == Some(version_view(v)) && v.raw@ == s@,
            None => semver_parse(s@) is None,
        },
{
    match semver::Version::parse(s) {
        Ok(v) => Some(Version {
            major: v.major,
            minor: v.minor,
            patch: v.patch,
            pre: v.pre.as_str().to_string(),
            build: v.build.as_str().to_string(),
            raw: s.to_string(),
        }),
        Err(_) => None,
    }
}

/// Relies on `semver::Version::new` and its `Display` form `major.minor.patch`,
/// which `semver::Version::parse` reads back to the same version.
#[verifier::external_body]
pub(crate) fn make_version(major: u64, minor: u64, patch: u64) -> (r: Version)
    ensures
        r.major == major && r.minor == minor && r.patch == patch,
        r.pre@ == Seq::<char>::empty() && r.build@ == Seq::<char>::empty(),
        r.wf(),
{
    let v = semver::Version::new(major, minor, patch);
    Version {
        major,
        minor,
        patch,
        pre: String::new(),
        build: String::new(),
        raw: v.to_string(),
    }
}

/// Relies on the semver crate's `Ord` for `Version`: a strict total order, so
/// versions with equal views never order before one another, and of two
/// versions with different views one orders before the other.
#[verifier::external_body]
pub(crate) fn precedence_lt(a: &Version, b: &Version) -> (r: bool)
    requires
        a.wf(),
        b.wf(),
    ensures
        r == semver_lt(version_view(*a), version_view(*b)),
        version_view(*a) == version_view(*b) ==> !r,
        !r && version_view(*a) != version_view(*b) ==> semver_lt(
            version_view(*b),
            version_view(*a),
        ),
{
    let av = semver::Version::parse(&a.raw).unwrap();
    let bv = semver::Version::parse(&b.raw).unwrap();
    av < bv
}

/// Whether two versions have equal views.
pub fn version_eq(a: &Version, b: &Version) -> (r: bool)
    ensures
        r == (version_view(*a) == version_view(*b)),
{
    a.major == b.major && a.minor == b.minor && a.patch == b.patch && a.pre == b.pre && a.build
        == b.build
}

/// Relies on `semver::VersionReq::parse`: `None` where the range expression
/// parses, otherwise the text of the parse error.
#[verifier::external_body]
pub(crate) fn range_error(s: &str) -> (r: Option<String>)
    ensures
        r is None <==> req_ok(s@),
        match r {
            Some(t) => t@ == req_err_text(s@),
            None => true,
        },
{
    match semver::VersionReq::parse(s) {
        Ok(_) => None,
        Err(e) => Some(e.to_string()),
    }
}

/// Relies on `semver::VersionReq::parse` and `semver::VersionReq::matches`:
/// whether the version satisfies the range expression.
#[verifier::external_body]
pub(crate) fn range_matches(range: &str, v: &Version) -> (r: bool)
    requires
        req_ok(range@),
        v.wf(),
    ensures
        r == req_matches(range@, version_view(*v)),
{
    let req = semver::VersionReq::parse(range).unwrap();
    let ver = semver::Version::parse(&v.raw).unwrap();
    req.matches(&ver)
}

} // verus!
