//! The update check's decisions: extracting the newest published version
//! from a registry response and comparing it with the running one.  The
//! network call stays outside; parsing and comparison live here.

use vstd::prelude::*;

verus! {

/// A plain version: three numbers, no pre-release, no build metadata.
#[derive(Clone, Copy, Debug, PartialEq, Eq, Structural)]
pub struct Version3 {
    pub major: u64,
    pub minor: u64,
    pub patch: u64,
}

/// A parsed version, as the semantic-versioning grammar has it.
pub struct VersionParts {
    pub major: u64,
    pub minor: u64,
    pub patch: u64,
    /// Pre-release identifiers, empty when none.
    pub pre: String,
    /// Build metadata, empty when none.
    pub build: String,
}

/// What `semver`'s grammar makes of a version string: its result depends on
/// the characters alone.
pub uninterp spec fn spec_semver_parts(s: Seq<char>) -> Option<(u64, u64, u64, Seq<char>, Seq<char>)>;

/// Relies on semver::Version::parse: parses a semantic version, yielding
/// its three numbers, pre-release identifiers and build metadata.
#[verifier::external_body]
fn parse_semver(s: &str) -> (r: Option<VersionParts>)
    ensures
        match r {
            Some(p) => spec_semver_parts(s@) == Some(
                (p.major, p.minor, p.patch, p.pre@, p.build@),
            ),
            None => spec_semver_parts(s@) is None,
        },
{
    match semver::Version::parse(s) {
        Ok(v) => Some(
            VersionParts {
                major: v.major,
                minor: v.minor,
                patch: v.patch,
                pre: v.pre.as_str().to_owned(),
                build: v.build.as_str().to_owned(),
            },
        ),
        Err(_) => None,
    }
}

#[verifier::external_type_specification]
#[verifier::external_body]
pub struct ExValue(serde_json::Value);

/// Relies on serde_json::from_str: parses a JSON document.
#[verifier::external_body]
fn parse_json(s: &str) -> (r: Option<serde_json::Value>) {
    serde_json::from_str(s).ok()
}

/// Relies on serde_json::Value::get: looks a member up in a JSON object.
#[verifier::external_body]
fn json_get<'a>(v: &'a serde_json::Value, key: &str) -> (r: Option<&'a serde_json::Value>) {
    v.get(key)
}

/// Relies on serde_json::Value::as_str: the content of a JSON string.
#[verifier::external_body]
fn json_as_str<'a>(v: &'a serde_json::Value) -> (r: Option<&'a str>) {
    v.as_str()
}

/// `a` is strictly newer than `b`: the version numbers compare greater,
/// most significant first.
pub open spec fn spec_newer(a: Version3, b: Version3) -> bool {
    ||| a.major > b.major
    ||| (a.major == b.major && a.minor > b.minor)
    ||| (a.major == b.major && a.minor == b.minor && a.patch > b.patch)
}

/// Is `a` strictly newer than `b`?
pub fn is_newer(a: &Version3, b: &Version3) -> (r: bool)
    ensures
        r == spec_newer(*a, *b),
{
    if a.major != b.major {
        a.major > b.major
    } else if a.minor != b.minor {
        a.minor > b.minor
    } else {
        a.patch > b.patch
    }
}

/// The plain version of a parse, when it carries neither pre-release
/// identifiers nor build metadata.
pub fn plain_version(p: &VersionParts) -> (r: Option<Version3>)
    ensures
        p.pre@.len() == 0 && p.build@.len() == 0 ==> r == Some(
            Version3 { major: p.major, minor: p.minor, patch: p.patch },
        ),
        p.pre@.len() != 0 || p.build@.len() != 0 ==> r is None,
{
    if p.pre.as_str().unicode_len() == 0 && p.build.as_str().unicode_len() == 0 {
        Some(Version3 { major: p.major, minor: p.minor, patch: p.patch })
    } else {
        None
    }
}

/// Would an upgrade from `current` to `latest` move forward?  Pre-release
/// identifiers on `latest` do not matter: with a plain `current`, the
/// numbers alone decide.
pub fn update_available(current: &Version3, latest: &VersionParts) -> (r: bool)
    ensures
        r == spec_newer(
            Version3 { major: latest.major, minor: latest.minor, patch: latest.patch },
            *current,
        ),
{
    let l = Version3 { major: latest.major, minor: latest.minor, patch: latest.patch };
    is_newer(&l, current)
}

/// The newest published version named by a registry response: the
/// `crate.newest_version` member, parsed as a semantic version.  `None`
/// when the response has no such member or it does not parse.
pub fn latest_version_in_response(body: &str) -> (r: Option<VersionParts>) {
    let doc = match parse_json(body) {
        Some(d) => d,
        None => {
            return None;
        },
    };
    let krate = match json_get(&doc, "crate") {
        Some(v) => v,
        None => {
            return None;
        },
    };
    let newest = match json_get(krate, "newest_version") {
        Some(v) => v,
        None => {
            return None;
        },
    };
    let text = match json_as_str(newest) {
        Some(t) => t,
        None => {
            return None;
        },
    };
    parse_semver(text)
}

} // verus!
