//! Release readiness of one package: the checklist of what a registry
//! asks for, and the state of its requirements on other workspace members.

use crate::metadata::{Dependency, DependencyKind, Package, Version};
use crate::version::VersionParts;
use vstd::prelude::*;
use vstd::string::{StrSliceExecFns, StringExecFns};

verus! {

/// `text` begins with `prefix`.
pub open spec fn begins_with(text: Seq<char>, prefix: Seq<char>) -> bool {
    text.len() >= prefix.len() && text.subrange(0, prefix.len() as int) == prefix
}

/// Whether `text` begins with `prefix`.
pub fn starts_with(text: &str, prefix: &str) -> (r: bool)
    ensures
        r == begins_with(text@, prefix@),
{
    let n: usize = prefix.unicode_len();
    if text.unicode_len() < n {
        return false;
    }
    let mut i: usize = 0;
    while i < n
        invariant
            i <= n,
            n == prefix@.len(),
            n <= text@.len(),
            forall|k: int| 0 <= k < i ==> text@[k] == prefix@[k],
        decreases n - i,
    {
        if text.get_char(i) != prefix.get_char(i) {
            assert(text@.subrange(0, n as int)[i as int] != prefix@[i as int]);
            return false;
        }
        i += 1;
    }
    assert(text@.subrange(0, n as int) =~= prefix@);
    true
}

/// Whether two texts are the same.
pub fn same_text(a: &str, b: &str) -> (r: bool)
    ensures
        r == (a@ == b@),
{
    if a.unicode_len() != b.unicode_len() {
        return false;
    }
    let r = starts_with(a, b);
    assert(a@.subrange(0, a@.len() as int) =~= a@);
    r
}

/// A source of this form is a repository, not a registry.
pub open spec fn is_git_source(source: Seq<char>) -> bool {
    begins_with(source, "git+"@)
}

/// A requirement of this form admits every version.
pub open spec fn is_unpinned(req: Seq<char>) -> bool {
    req == "*"@
}

/// A dependency that a registry would not accept: one taken from a
/// repository, or a normal dependency given by path without a version
/// requirement.
pub open spec fn is_local_dep(d: Dependency) -> bool {
    ||| d.source matches Some(s) && is_git_source(s@)
    ||| d.path is Some && d.kind == DependencyKind::Normal && is_unpinned(d.req@)
}

/// Whether the dependency is one that a registry would not accept.
pub fn dependency_is_local(d: &Dependency) -> (r: bool)
    ensures
        r == is_local_dep(*d),
{
    let git = match &d.source {
        Some(s) => starts_with(s.as_str(), "git+"),
        None => false,
    };
    if git {
        return true;
    }
    let normal = match d.kind {
        DependencyKind::Normal => true,
        _ => false,
    };
    d.path.is_some() && normal && same_text(d.req.as_str(), "*")
}

/// Whether the package has a dependency that a registry would not accept.
pub fn package_has_local_deps(package: &Package) -> (r: bool)
    ensures
        r == exists|k: int|
            0 <= k < package.dependencies@.len() && is_local_dep(#[trigger] package.dependencies@[k]),
{
    let mut k: usize = 0;
    while k < package.dependencies.len()
        invariant
            k <= package.dependencies@.len(),
            forall|m: int| 0 <= m < k ==> !is_local_dep(#[trigger] package.dependencies@[m]),
        decreases package.dependencies.len() - k,
    {
        if dependency_is_local(&package.dependencies[k]) {
            return true;
        }
        k += 1;
    }
    false
}

/// One line of the checklist.
#[derive(Debug, Clone, PartialEq, Eq)]
pub struct Check {
    /// Whether the package has what the line asks for.
    pub ok: bool,
    /// What the package has, or what is missing.
    pub text: String,
}

impl View for Check {
    type V = (bool, Seq<char>);

    open spec fn view(&self) -> (bool, Seq<char>) {
        (self.ok, self.text@)
    }
}

/// The entries of a list, each followed by a comma and a blank.
pub open spec fn listing(items: Seq<String>) -> Seq<char>
    decreases items.len(),
{
    if items.len() == 0 {
        Seq::empty()
    } else {
        listing(items.drop_last()) + items.last()@ + ", "@
    }
}

/// The line for a list that must not be empty.
pub open spec fn list_check(items: Seq<String>, missing: Seq<char>) -> (bool, Seq<char>) {
    if items.len() == 0 {
        (false, missing)
    } else {
        (true, listing(items))
    }
}

/// The line for a text that must be there.
pub open spec fn text_check(text: Option<String>, missing: Seq<char>) -> (bool, Seq<char>) {
    match text {
        Some(s) => (true, s@),
        None => (false, missing),
    }
}

/// The checklist of a package: keywords, authors, edition, license and
/// description.
pub open spec fn checklist_of(p: Package) -> Seq<(bool, Seq<char>)> {
    seq![
        list_check(p.keywords@, "Missing keywords"@),
        list_check(p.authors@, "Missing authors"@),
        (true, "Edition "@ + p.edition@),
        text_check(p.license, "Missing license"@),
        text_check(p.description, "Missing description"@),
    ]
}

/// The package has everything that the checklist asks for.
pub open spec fn ready(p: Package) -> bool {
    p.keywords@.len() > 0 && p.authors@.len() > 0 && p.license is Some && p.description is Some
}

/// The lines of a checklist as plain values.
pub open spec fn check_views(checks: Seq<Check>) -> Seq<(bool, Seq<char>)> {
    Seq::new(checks.len(), |k: int| checks[k]@)
}

fn check_list(items: &Vec<String>, missing: &str) -> (c: Check)
    ensures
        c@ == list_check(items@, missing@),
{
    if items.len() == 0 {
        return Check { ok: false, text: String::from_str(missing) };
    }
    let mut text = String::new();
    let mut k: usize = 0;
    while k < items.len()
        invariant
            k <= items@.len(),
            text@ == listing(items@.take(k as int)),
        decreases items.len() - k,
    {
        proof {
            assert(items@.take(k + 1).drop_last() =~= items@.take(k as int));
            assert(items@.take(k + 1).last() == items@[k as int]);
        }
        text.append(items[k].as_str());
        text.append(", ");
        k += 1;
    }
    assert(items@.take(k as int) =~= items@);
    Check { ok: true, text }
}

fn check_text(text: &Option<String>, missing: &str) -> (c: Check)
    ensures
        c@ == text_check(*text, missing@),
{
    match text {
        Some(s) => Check { ok: true, text: s.clone() },
        None => Check { ok: false, text: String::from_str(missing) },
    }
}

impl Package {
    /// The checklist of the package.
    pub fn checklist(&self) -> (checks: Vec<Check>)
        ensures
            check_views(checks@) == checklist_of(*self),
    {
        let mut edition = String::from_str("Edition ");
        edition.append(self.edition.as_str());
        let mut checks: Vec<Check> = Vec::new();
        checks.push(check_list(&self.keywords, "Missing keywords"));
        checks.push(check_list(&self.authors, "Missing authors"));
        checks.push(Check { ok: true, text: edition });
        checks.push(check_text(&self.license, "Missing license"));
        checks.push(check_text(&self.description, "Missing description"));
        assert(check_views(checks@) =~= checklist_of(*self));
        checks
    }

    /// Whether the package has everything that the checklist asks for.
    pub fn is_ready(&self) -> (r: bool)
        ensures
            r == ready(*self),
    {
        self.keywords.len() > 0 && self.authors.len() > 0 && self.license.is_some()
            && self.description.is_some()
    }
}

/// How a requirement stands to the version of the package it names.
#[derive(Debug, Clone, Copy, PartialEq, Eq, Structural)]
pub enum RequirementStatus {
    /// The requirement admits the version.
    Satisfied,
    /// The requirement does not admit the version.
    Unsatisfied,
    /// There is no requirement: every version is admitted.
    Unpinned,
}

/// The status of the requirement `req`, given whether it admits the
/// version of the package.
pub open spec fn status_of(req: Seq<char>, admits: bool) -> RequirementStatus {
    if is_unpinned(req) {
        RequirementStatus::Unpinned
    } else if admits {
        RequirementStatus::Satisfied
    } else {
        RequirementStatus::Unsatisfied
    }
}

/// The status of the requirement `req`, given whether it admits the
/// version of the package.
pub fn requirement_status(req: &str, admits: bool) -> (s: RequirementStatus)
    ensures
        s == status_of(req@, admits),
{
    if same_text(req, "*") {
        RequirementStatus::Unpinned
    } else if admits {
        RequirementStatus::Satisfied
    } else {
        RequirementStatus::Unsatisfied
    }
}

/// Whether the requirement `req` admits the version `v`, or nothing where
/// `req` is no requirement or `v` no version.
pub uninterp spec fn semver_admits(req: Seq<char>, v: VersionParts) -> Option<bool>;

/// Asks `semver::VersionReq::matches` whether the requirement written as
/// `req` admits `version`. The requirement is parsed by
/// `VersionReq::parse`; the version is handed over part by part. The
/// result is `None` where `semver` takes `req` for no requirement, or the
/// pre-release or build text of `version` for none.
#[verifier::external_body]
pub(crate) fn req_admits(req: &str, version: &Version) -> (r: Option<bool>)
    ensures
        r == semver_admits(req@, version@),
{
    let req = cargo_metadata::semver::VersionReq::parse(req).ok()?;
    let version = cargo_metadata::semver::Version {
        major: version.major,
        minor: version.minor,
        patch: version.patch,
        pre: cargo_metadata::semver::Prerelease::new(&version.pre).ok()?,
        build: cargo_metadata::semver::BuildMetadata::new(&version.build).ok()?,
    };
    Some(req.matches(&version))
}

/// How the requirement `req` stands to `version`. A requirement that
/// cannot be read admits nothing.
pub fn dependency_status(req: &str, version: &Version) -> (s: RequirementStatus)
    ensures
        s == status_of(req@, semver_admits(req@, version@) == Some(true)),
{
    let admits = match req_admits(req, version) {
        Some(b) => b,
        None => false,
    };
    requirement_status(req, admits)
}

} // verus!
