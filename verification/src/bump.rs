//! Bump propagation: the new text of the manifest of a package whose minor
//! version is raised, and of the manifests of the workspace members that
//! depend on it.

use crate::graph::{place_of, CrateGraph};
use crate::query::{dependents_upto, lemma_dependents_upto, member_package};
use crate::ident::PackageId;
use crate::manifest::{key_texts, lookup, toml_entry, toml_with_text, with_text, Entry, EntryView};
use crate::topo::is_edge;
use crate::metadata::Version;
use crate::version::{
    bumped, caret_requirement, caret_text, parse_version, semver_parse, version_text, BumpStrategy,
    VersionParts,
};
use crate::workspace::position;
use vstd::prelude::*;
use vstd::string::StringExecFns;

verus! {

/// Why a bump was not planned or not carried out.
#[derive(Debug, Clone, PartialEq, Eq)]
pub enum BumpError {
    /// The package is no workspace member.
    UnknownPackage,
    /// The manifest at this path could not be read.
    ManifestReadError(String),
    /// The manifest at this path is not well-formed, or does not declare
    /// what the snapshot says it declares.
    ManifestParseError(String),
    /// The manifest at this path could not be written.
    ManifestWriteError(String),
    /// The minor version number cannot grow.
    VersionOverflow,
}

/// A bump error as plain values.
pub enum BumpErrorView {
    UnknownPackage,
    ManifestReadError(Seq<char>),
    ManifestParseError(Seq<char>),
    ManifestWriteError(Seq<char>),
    VersionOverflow,
}

impl View for BumpError {
    type V = BumpErrorView;

    open spec fn view(&self) -> BumpErrorView {
        match *self {
            BumpError::UnknownPackage => BumpErrorView::UnknownPackage,
            BumpError::ManifestReadError(p) => BumpErrorView::ManifestReadError(p@),
            BumpError::ManifestParseError(p) => BumpErrorView::ManifestParseError(p@),
            BumpError::ManifestWriteError(p) => BumpErrorView::ManifestWriteError(p@),
            BumpError::VersionOverflow => BumpErrorView::VersionOverflow,
        }
    }
}

/// One manifest to write: where, and its new text.
#[derive(Debug, Clone, PartialEq, Eq)]
pub struct ManifestWrite {
    pub path: String,
    pub contents: String,
}

impl View for ManifestWrite {
    type V = (Seq<char>, Seq<char>);

    open spec fn view(&self) -> (Seq<char>, Seq<char>) {
        (self.path@, self.contents@)
    }
}

/// Why the text of one manifest could not be edited.
#[derive(Debug, Clone, Copy, PartialEq, Eq, Structural)]
pub enum EditFailure {
    /// The manifest is not well-formed or lacks the entry to change.
    Malformed,
    /// The minor version number cannot grow.
    Overflow,
}

/// Where a manifest holds the version of its package.
pub open spec fn version_path() -> Seq<Seq<char>> {
    seq!["package"@, "version"@]
}

/// Where a manifest declares the dependency `name`.
pub open spec fn dependency_path(name: Seq<char>) -> Seq<Seq<char>> {
    seq!["dependencies"@, name]
}

/// Where a manifest holds the requirement on the dependency `name` when
/// the dependency is declared as a table.
pub open spec fn requirement_path(name: Seq<char>) -> Seq<Seq<char>> {
    seq!["dependencies"@, name, "version"@]
}

/// A version that may be missing, as plain values.
pub open spec fn option_view(v: Option<Version>) -> Option<VersionParts> {
    match v {
        Some(v) => Some(v@),
        None => None,
    }
}

/// The text of a version after a minor bump, given what reading the
/// version gave.
pub open spec fn version_after(current: Option<VersionParts>, strategy: BumpStrategy) -> Result<
    Seq<char>,
    EditFailure,
> {
    match current {
        Some(v) => match bumped(v, strategy) {
            Some(next) => Ok(version_text(next)),
            None => Err(EditFailure::Overflow),
        },
        None => Err(EditFailure::Malformed),
    }
}

/// The text of the version that the manifest `toml` holds after a minor
/// bump.
pub open spec fn next_version(toml: Seq<char>, strategy: BumpStrategy) -> Result<
    Seq<char>,
    EditFailure,
> {
    match toml_entry(toml, version_path()) {
        Some(EntryView::Text(current)) => version_after(semver_parse(current), strategy),
        _ => Err(EditFailure::Malformed),
    }
}

/// The manifest `toml` with the minor version of its package raised.
pub open spec fn version_edit(toml: Seq<char>, strategy: BumpStrategy) -> Result<
    Seq<char>,
    EditFailure,
> {
    match next_version(toml, strategy) {
        Ok(version) => found(toml_with_text(toml, version_path(), version)),
        Err(e) => Err(e),
    }
}

/// Where a manifest states its requirement on a dependency.
#[derive(Debug, Clone, Copy, PartialEq, Eq, Structural)]
pub enum RequirementPlace {
    /// The dependency is declared by its requirement alone.
    Entry,
    /// The dependency is declared as a table with a version field.
    Field,
    /// The dependency is declared as a table without a version field:
    /// no requirement is stated.
    Unstated,
    /// The dependency is not declared, or not in a form that can be
    /// rewritten.
    Malformed,
}

/// Where the requirement stands, given what the manifest holds for the
/// dependency and for its version field.
pub open spec fn place_for(entry: EntryView, field: EntryView) -> RequirementPlace {
    match entry {
        EntryView::Text(_) => RequirementPlace::Entry,
        EntryView::Table => match field {
            EntryView::Text(_) => RequirementPlace::Field,
            EntryView::Missing => RequirementPlace::Unstated,
            _ => RequirementPlace::Malformed,
        },
        _ => RequirementPlace::Malformed,
    }
}

/// The result of an edit that must find its entry.
pub open spec fn found(out: Option<Seq<char>>) -> Result<Seq<char>, EditFailure> {
    match out {
        Some(text) => Ok(text),
        None => Err(EditFailure::Malformed),
    }
}

/// The manifest `toml` with its requirement on the dependency `name`
/// replaced by `req`. A dependency that is declared as a table without a
/// requirement keeps being declared so, and the text stays as it is.
pub open spec fn requirement_edit(toml: Seq<char>, name: Seq<char>, req: Seq<char>) -> Result<
    Seq<char>,
    EditFailure,
> {
    match (toml_entry(toml, dependency_path(name)), toml_entry(toml, requirement_path(name))) {
        (Some(entry), Some(field)) => match place_for(entry, field) {
            RequirementPlace::Entry => found(toml_with_text(toml, dependency_path(name), req)),
            RequirementPlace::Field => found(toml_with_text(toml, requirement_path(name), req)),
            RequirementPlace::Unstated => Ok(toml),
            RequirementPlace::Malformed => Err(EditFailure::Malformed),
        },
        _ => Err(EditFailure::Malformed),
    }
}

fn keys2(a: &str, b: &str) -> (path: Vec<String>)
    ensures
        path@.len() == 2,
        key_texts(path@) == seq![a@, b@],
{
    let mut path: Vec<String> = Vec::new();
    path.push(String::from_str(a));
    path.push(String::from_str(b));
    assert(key_texts(path@) =~= seq![a@, b@]);
    path
}

fn keys3(a: &str, b: &str, c: &str) -> (path: Vec<String>)
    ensures
        path@.len() == 3,
        key_texts(path@) == seq![a@, b@, c@],
{
    let mut path: Vec<String> = Vec::new();
    path.push(String::from_str(a));
    path.push(String::from_str(b));
    path.push(String::from_str(c));
    assert(key_texts(path@) =~= seq![a@, b@, c@]);
    path
}

/// The string that an entry holds.
pub fn entry_text(entry: &Entry) -> (r: Option<&String>)
    ensures
        match r {
            Some(s) => entry@ == EntryView::Text(s@),
            None => !(entry@ is Text),
        },
{
    match entry {
        Entry::Text(s) => Some(s),
        _ => None,
    }
}

/// The text of a version after a minor bump, given what reading the
/// version gave: nothing where the text read was no version.
pub fn bumped_text(current: Option<Version>, strategy: BumpStrategy) -> (r: Result<
    String,
    EditFailure,
>)
    ensures
        match r {
            Ok(s) => version_after(option_view(current), strategy) == Ok::<Seq<char>, EditFailure>(
                s@,
            ),
            Err(e) => version_after(option_view(current), strategy) == Err::<
                Seq<char>,
                EditFailure,
            >(e),
        },
{
    match current {
        Some(version) => match version.bump_minor(strategy) {
            Some(next) => Ok(next.to_text()),
            None => Err(EditFailure::Overflow),
        },
        None => Err(EditFailure::Malformed),
    }
}

/// Reads the version of the manifest `toml` and gives its text after a
/// minor bump.
pub fn bumped_version_text(toml: &str, strategy: BumpStrategy) -> (r: Result<String, EditFailure>)
    ensures
        match r {
            Ok(s) => next_version(toml@, strategy) == Ok::<Seq<char>, EditFailure>(s@),
            Err(e) => next_version(toml@, strategy) == Err::<Seq<char>, EditFailure>(e),
        },
{
    let path = keys2("package", "version");
    let entry = match lookup(toml, &path) {
        Ok(entry) => entry,
        Err(_) => {
            return Err(EditFailure::Malformed);
        },
    };
    let current = match entry_text(&entry) {
        Some(s) => s,
        None => {
            return Err(EditFailure::Malformed);
        },
    };
    bumped_text(parse_version(current.as_str()), strategy)
}

/// Raises the minor version in the manifest `toml`.
pub fn bump_manifest(toml: &str, strategy: BumpStrategy) -> (r: Result<String, EditFailure>)
    ensures
        match r {
            Ok(s) => version_edit(toml@, strategy) == Ok::<Seq<char>, EditFailure>(s@),
            Err(e) => version_edit(toml@, strategy) == Err::<Seq<char>, EditFailure>(e),
        },
{
    let version = match bumped_version_text(toml, strategy) {
        Ok(v) => v,
        Err(e) => {
            return Err(e);
        },
    };
    let path = keys2("package", "version");
    match with_text(toml, &path, version.as_str()) {
        Some(out) => Ok(out),
        None => Err(EditFailure::Malformed),
    }
}

/// Where the requirement stands, given what the manifest holds for the
/// dependency and for its version field.
pub fn requirement_place(entry: &Entry, field: &Entry) -> (place: RequirementPlace)
    ensures
        place == place_for(entry@, field@),
{
    match entry {
        Entry::Text(_) => RequirementPlace::Entry,
        Entry::Table => match field {
            Entry::Text(_) => RequirementPlace::Field,
            Entry::Missing => RequirementPlace::Unstated,
            _ => RequirementPlace::Malformed,
        },
        _ => RequirementPlace::Malformed,
    }
}

/// Replaces the requirement on the dependency `name` in the manifest
/// `toml` by `req`.
pub fn rewrite_requirement(toml: &str, name: &str, req: &str) -> (r: Result<String, EditFailure>)
    ensures
        match r {
            Ok(s) => requirement_edit(toml@, name@, req@) == Ok::<Seq<char>, EditFailure>(s@),
            Err(e) => requirement_edit(toml@, name@, req@) == Err::<Seq<char>, EditFailure>(e),
        },
{
    let direct = keys2("dependencies", name);
    let inner = keys3("dependencies", name, "version");
    let entry = match lookup(toml, &direct) {
        Ok(entry) => entry,
        Err(_) => {
            return Err(EditFailure::Malformed);
        },
    };
    let field = match lookup(toml, &inner) {
        Ok(field) => field,
        Err(_) => {
            return Err(EditFailure::Malformed);
        },
    };
    let out = match requirement_place(&entry, &field) {
        RequirementPlace::Entry => with_text(toml, &direct, req),
        RequirementPlace::Field => with_text(toml, &inner, req),
        RequirementPlace::Unstated => Some(String::from_str(toml)),
        RequirementPlace::Malformed => None,
    };
    match out {
        Some(text) => Ok(text),
        None => Err(EditFailure::Malformed),
    }
}

/// The places of the members whose manifests a bump of member `i` edits:
/// the member itself, then its direct dependents.
pub open spec fn target_places(adj: Seq<Vec<usize>>, i: int) -> Seq<usize> {
    seq![i as usize] + dependents_upto(adj, i, adj.len())
}

/// The text supplied for the manifest of target `k`.
pub open spec fn supplied(manifests: Seq<Option<String>>, k: int) -> Option<Seq<char>> {
    if 0 <= k < manifests.len() {
        match manifests[k] {
            Some(text) => Some(text@),
            None => None,
        }
    } else {
        None
    }
}

/// What the bump of member `i` does to the manifest of its target `k`.
pub open spec fn target_edit(
    graph: &CrateGraph,
    i: int,
    manifests: Seq<Option<String>>,
    strategy: BumpStrategy,
    k: int,
) -> Result<Seq<char>, EditFailure> {
    match (supplied(manifests, 0), supplied(manifests, k)) {
        (Some(primary), Some(text)) => if k == 0 {
            version_edit(text, strategy)
        } else {
            match next_version(primary, strategy) {
                Ok(version) => requirement_edit(
                    text,
                    member_package(graph, i).name@,
                    caret_text(version),
                ),
                Err(e) => Err(e),
            }
        },
        _ => Err(EditFailure::Malformed),
    }
}

/// The manifest to write for target `k` of the bump of member `i`, or the
/// error that the target fails with.
pub open spec fn target_outcome(
    graph: &CrateGraph,
    i: int,
    manifests: Seq<Option<String>>,
    strategy: BumpStrategy,
    k: int,
) -> Result<(Seq<char>, Seq<char>), BumpErrorView> {
    let place = target_places(graph.ws_deps@, i)[k];
    let path = member_package(graph, place as int).manifest_path@;
    if supplied(manifests, k) is None {
        Err(BumpErrorView::ManifestReadError(path))
    } else {
        match target_edit(graph, i, manifests, strategy, k) {
            Ok(out) => Ok((path, out)),
            Err(EditFailure::Malformed) => Err(BumpErrorView::ManifestParseError(path)),
            Err(EditFailure::Overflow) => Err(BumpErrorView::VersionOverflow),
        }
    }
}

/// The plan of the bump of member `i`: every manifest to write, or the
/// error of the first target that fails.
pub open spec fn is_bump_plan(
    graph: &CrateGraph,
    i: int,
    manifests: Seq<Option<String>>,
    strategy: BumpStrategy,
    plan: Result<Seq<(Seq<char>, Seq<char>)>, BumpErrorView>,
) -> bool {
    let targets = target_places(graph.ws_deps@, i);
    match plan {
        Ok(writes) => writes.len() == targets.len() && forall|k: int|
            0 <= k < targets.len() ==> target_outcome(graph, i, manifests, strategy, k) == Ok::<
                (Seq<char>, Seq<char>),
                BumpErrorView,
            >(#[trigger] writes[k]),
        Err(e) => exists|k: int|
            0 <= k < targets.len() && #[trigger] target_outcome(graph, i, manifests, strategy, k)
                == Err::<(Seq<char>, Seq<char>), BumpErrorView>(e) && forall|j: int|
                0 <= j < k ==> (#[trigger] target_outcome(graph, i, manifests, strategy, j)) is Ok,
    }
}

/// The writes of a plan as plain values.
pub open spec fn write_views(writes: Seq<ManifestWrite>) -> Seq<(Seq<char>, Seq<char>)> {
    Seq::new(writes.len(), |k: int| writes[k]@)
}

/// A bump plan as plain values.
pub open spec fn plan_view(plan: Result<Vec<ManifestWrite>, BumpError>) -> Result<
    Seq<(Seq<char>, Seq<char>)>,
    BumpErrorView,
> {
    match plan {
        Ok(writes) => Ok(write_views(writes@)),
        Err(e) => Err(e@),
    }
}

/// The bump of a package that no member depends on edits one manifest.
pub proof fn lemma_no_dependents_one_target(adj: Seq<Vec<usize>>, i: int)
    requires
        adj.len() <= usize::MAX,
        forall|j: int| 0 <= j < adj.len() ==> !is_edge(adj, j, i),
    ensures
        target_places(adj, i).len() == 1,
{
    lemma_dependents_upto(adj, i, adj.len());
}

fn supplied_text(manifests: &Vec<Option<String>>, k: usize) -> (r: Option<&String>)
    ensures
        match r {
            Some(text) => supplied(manifests@, k as int) == Some(text@),
            None => supplied(manifests@, k as int) is None,
        },
{
    if k < manifests.len() {
        manifests[k].as_ref()
    } else {
        None
    }
}

fn failure(kind: EditFailure, path: &String) -> (e: BumpError)
    ensures
        e@ == match kind {
            EditFailure::Malformed => BumpErrorView::ManifestParseError(path@),
            EditFailure::Overflow => BumpErrorView::VersionOverflow,
        },
{
    match kind {
        EditFailure::Malformed => BumpError::ManifestParseError(path.clone()),
        EditFailure::Overflow => BumpError::VersionOverflow,
    }
}

impl CrateGraph {
    fn target_list(&self, i: usize) -> (targets: Vec<usize>)
        requires
            self.wf(),
            i < self.crates@.len(),
        ensures
            targets@ == target_places(self.ws_deps@, i as int),
            forall|k: int| 0 <= k < targets@.len() ==> (#[trigger] targets@[k]) < self.crates@.len(),
    {
        let mut targets: Vec<usize> = Vec::new();
        targets.push(i);
        let mut rest = self.dependent_places(i);
        let n: usize = self.ws_deps.len();
        proof {
            lemma_dependents_upto(self.ws_deps@, i as int, n as nat);
        }
        targets.append(&mut rest);
        targets
    }

    /// The paths of the manifests that a bump of `id` edits: first the
    /// manifest of `id`, then those of the members that depend on it. The
    /// result is `None` where `id` is no workspace member.
    pub fn bump_targets(&self, id: &PackageId) -> (r: Option<Vec<String>>)
        requires
            self.wf(),
        ensures
            r is Some <==> self.crate_set().contains(id@),
            r matches Some(paths) ==> {
                let targets = target_places(self.ws_deps@, place_of(self.crates@, id@));
                &&& paths@.len() == targets.len()
                &&& forall|k: int|
                    0 <= k < paths@.len() ==> (#[trigger] paths@[k])@ == member_package(
                        self,
                        targets[k] as int,
                    ).manifest_path@
            },
    {
        let i: usize = match position(&self.crates, id) {
            Some(i) => i,
            None => {
                return None;
            },
        };
        assert(place_of(self.crates@, id@) == i);
        let targets = self.target_list(i);
        let mut paths: Vec<String> = Vec::new();
        let mut k: usize = 0;
        while k < targets.len()
            invariant
                k <= targets@.len(),
                self.wf(),
                forall|m: int|
                    0 <= m < targets@.len() ==> (#[trigger] targets@[m]) < self.crates@.len(),
                paths@.len() == k,
                forall|m: int|
                    0 <= m < k ==> (#[trigger] paths@[m])@ == member_package(
                        self,
                        targets@[m] as int,
                    ).manifest_path@,
            decreases targets.len() - k,
        {
            let place: usize = targets[k];
            paths.push(self.member(place).manifest_path.clone());
            k += 1;
        }
        Some(paths)
    }

    /// Plans the minor bump of `id`: the new text of its manifest and of
    /// the manifests of the members that depend on it. `manifests` holds
    /// the texts that were read from the paths of `bump_targets`, in
    /// that order, `None` for one that could not be read. Nothing is
    /// planned unless every target can be edited.
    pub fn bump_minor(
        &self,
        id: &PackageId,
        manifests: &Vec<Option<String>>,
        strategy: BumpStrategy,
    ) -> (r: Result<Vec<ManifestWrite>, BumpError>)
        requires
            self.wf(),
        ensures
            !self.crate_set().contains(id@) ==> r == Err::<Vec<ManifestWrite>, BumpError>(
                BumpError::UnknownPackage,
            ),
            self.crate_set().contains(id@) ==> is_bump_plan(
                self,
                place_of(self.crates@, id@),
                manifests@,
                strategy,
                plan_view(r),
            ),
    {
        let i: usize = match position(&self.crates, id) {
            Some(i) => i,
            None => {
                return Err(BumpError::UnknownPackage);
            },
        };
        assert(place_of(self.crates@, id@) == i);
        let targets = self.target_list(i);
        let package = self.member(i);
        let mut writes: Vec<ManifestWrite> = Vec::new();
        let primary = match supplied_text(manifests, 0) {
            Some(text) => text,
            None => {
                let e = BumpError::ManifestReadError(package.manifest_path.clone());
                assert(target_outcome(self, i as int, manifests@, strategy, 0) == Err::<
                    (Seq<char>, Seq<char>),
                    BumpErrorView,
                >(e@));
                return Err(e);
            },
        };
        let version = match bumped_version_text(primary.as_str(), strategy) {
            Ok(v) => v,
            Err(kind) => {
                let e = failure(kind, &package.manifest_path);
                assert(target_outcome(self, i as int, manifests@, strategy, 0) == Err::<
                    (Seq<char>, Seq<char>),
                    BumpErrorView,
                >(e@));
                return Err(e);
            },
        };
        let req = caret_requirement(version.as_str());
        let mut k: usize = 0;
        while k < targets.len()
            invariant
                k <= targets@.len(),
                self.wf(),
                i < self.crates@.len(),
                self.crate_set().contains(id@),
                place_of(self.crates@, id@) == i,
                targets@ == target_places(self.ws_deps@, i as int),
                forall|m: int|
                    0 <= m < targets@.len() ==> (#[trigger] targets@[m]) < self.crates@.len(),
                *package == member_package(self, i as int),
                supplied(manifests@, 0) == Some(primary@),
                next_version(primary@, strategy) == Ok::<Seq<char>, EditFailure>(version@),
                req@ == caret_text(version@),
                writes@.len() == k,
                forall|m: int|
                    0 <= m < k ==> target_outcome(self, i as int, manifests@, strategy, m) == Ok::<
                        (Seq<char>, Seq<char>),
                        BumpErrorView,
                    >((#[trigger] writes@[m])@),
            decreases targets.len() - k,
        {
            let place: usize = targets[k];
            let path = &self.member(place).manifest_path;
            let text = match supplied_text(manifests, k) {
                Some(text) => text,
                None => {
                    let e = BumpError::ManifestReadError(path.clone());
                    proof {
                        assert(target_outcome(self, i as int, manifests@, strategy, k as int)
                            == Err::<(Seq<char>, Seq<char>), BumpErrorView>(e@));
                        assert forall|j: int| 0 <= j < k implies (#[trigger] target_outcome(
                            self,
                            i as int,
                            manifests@,
                            strategy,
                            j,
                        )) is Ok by {
                            let w = writes@[j];
                        }
                    }
                    return Err(e);
                },
            };
            let edit = if k == 0 {
                bump_manifest(text.as_str(), strategy)
            } else {
                rewrite_requirement(text.as_str(), package.name.as_str(), req.as_str())
            };
            let contents = match edit {
                Ok(out) => out,
                Err(kind) => {
                    let e = failure(kind, path);
                    proof {
                        assert(target_outcome(self, i as int, manifests@, strategy, k as int)
                            == Err::<(Seq<char>, Seq<char>), BumpErrorView>(e@));
                        assert forall|j: int| 0 <= j < k implies (#[trigger] target_outcome(
                            self,
                            i as int,
                            manifests@,
                            strategy,
                            j,
                        )) is Ok by {
                            let w = writes@[j];
                        }
                    }
                    return Err(e);
                },
            };
            writes.push(ManifestWrite { path: path.clone(), contents });
            k += 1;
        }
        proof {
            let views = write_views(writes@);
            assert forall|m: int| 0 <= m < targets@.len() implies target_outcome(
                self,
                i as int,
                manifests@,
                strategy,
                m,
            ) == Ok::<(Seq<char>, Seq<char>), BumpErrorView>(#[trigger] views[m]) by {
                assert(views[m] == writes@[m]@);
            }
        }
        Ok(writes)
    }
}

} // verus!
