//! Update checks: reading a published release and deciding whether it is
//! newer than the running version (semantic-version order).

use vstd::prelude::*;
use crate::text::{chars_of, string_from_chars, string_from_range, trim_chars, trim_seq};

verus! {

broadcast use vstd::string::group_string_axioms;

/// Whether `semver::Version::parse` accepts the text.
pub uninterp spec fn semver_valid(s: Seq<char>) -> bool;

/// Whether the version parsed from `a` orders after the one parsed from
/// `b` in `semver::Version`'s `Ord`.
pub uninterp spec fn semver_gt(a: Seq<char>, b: Seq<char>) -> bool;

/// Calls `semver::Version::parse` and reports whether it succeeded; the
/// outcome depends on the text alone.
#[verifier::external_body]
fn version_is_valid(s: &str) -> (r: bool)
    ensures
        r == semver_valid(s@),
{
    semver::Version::parse(s).is_ok()
}

/// Compares two versions with `semver::Version`'s `>` (its derived `Ord`:
/// major, minor, patch, pre-release, build metadata), after parsing each
/// text with `semver::Version::parse`. Claimed: the result depends on the
/// two texts alone, and, as `Ord` is a total order, a version is never
/// greater than itself, nor both greater and smaller than another.
#[verifier::external_body]
fn version_newer(a: &str, b: &str) -> (r: bool)
    requires
        semver_valid(a@),
        semver_valid(b@),
    ensures
        r == semver_gt(a@, b@),
        a@ == b@ ==> !r,
        r ==> !semver_gt(b@, a@),
{
    match (semver::Version::parse(a), semver::Version::parse(b)) {
        (Ok(x), Ok(y)) => x > y,
        _ => false,
    }
}

/// Whether `remote` is a higher semantic version than `local`; text that
/// does not parse counts as no update.
pub open spec fn is_newer_spec(remote: Seq<char>, local: Seq<char>) -> bool {
    semver_valid(remote) && semver_valid(local) && semver_gt(remote, local)
}

/// Returns `true` when `remote` is a higher semantic version than `local`.
/// Non-parseable versions are treated as equal (no update shown).
pub fn is_newer(remote: &str, local: &str) -> (r: bool)
    ensures
        r == is_newer_spec(remote@, local@),
        remote@ == local@ ==> !r,
        r ==> !is_newer_spec(local@, remote@),
{
    if version_is_valid(remote) && version_is_valid(local) {
        version_newer(remote, local)
    } else {
        false
    }
}

/// A published release.
#[derive(Clone, Debug)]
pub struct ReleaseInfo {
    /// Release tag without a leading `v` (e.g. `1.2.3`).
    pub version: String,
    /// Raw release tag as published (e.g. `v1.2.3`), trimmed.
    pub tag: String,
    /// Release title (the tag when there is none).
    pub name: String,
    /// Browser URL to the release page.
    pub url: String,
}

/// The release described by a published tag, optional title and page URL.
pub fn release_info(tag_name: &str, name: Option<String>, html_url: &str) -> (r: ReleaseInfo)
    ensures
        r.tag@ == trim_seq(tag_name@),
        r.version@ == if trim_seq(tag_name@).len() > 0 && trim_seq(tag_name@)[0] == 'v' {
            trim_seq(tag_name@).drop_first()
        } else {
            trim_seq(tag_name@)
        },
        r.name@ == match name {
            Some(n) => n@,
            None => trim_seq(tag_name@),
        },
        r.url@ == html_url@,
{
    let t = trim_chars(&chars_of(tag_name));
    let tag = string_from_chars(&t);
    let version = if t.len() > 0 && t[0] == 'v' {
        let v = string_from_range(&t, 1, t.len());
        assert(t@.subrange(1, t@.len() as int) =~= t@.drop_first());
        v
    } else {
        string_from_chars(&t)
    };
    let name = match name {
        Some(n) => n,
        None => string_from_chars(&t),
    };
    ReleaseInfo { version, tag, name, url: html_url.to_owned() }
}

} // verus!
