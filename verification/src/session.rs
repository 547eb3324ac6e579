//! The release state of one session: which workspace members are released,
//! ignored or still to be released, and how commands change that.

use crate::graph::CrateGraph;
use crate::ident::PackageId;
use crate::metadata::{never_published, package_of};
use crate::rank::distinct_ids;
use crate::workspace::{id_views, is_member, listed, position};
use vstd::prelude::*;

verus! {

/// Where a workspace member stands in a session.
#[derive(Debug, Clone, Copy, PartialEq, Eq, Structural)]
pub enum Status {
    Unreleased,
    Ignored,
    Released,
}

/// What the user asks of the session.
#[derive(Debug, Clone, PartialEq, Eq)]
pub enum Command {
    /// Leave the package out of this session.
    Ignore(PackageId),
    /// Publish the package.
    Release(PackageId),
    /// The publish invocation for the package has ended, well or not.
    PublishDone(PackageId, bool),
    /// Raise the minor version of the package and the requirements on it.
    BumpMinor(PackageId),
}

/// What the caller has to do after a command.
#[derive(Debug, Clone, PartialEq, Eq)]
pub enum Effect {
    Nothing,
    /// Run the publish command for the package, then report `PublishDone`.
    Publish(PackageId),
    /// Carry out the version bump of the package.
    Bump(PackageId),
}

/// The release state of a session.
#[derive(Debug, Clone)]
pub struct ReleaseState {
    pub released: Vec<PackageId>,
    pub ignored: Vec<PackageId>,
    pub unreleased: Vec<PackageId>,
    /// The unreleased packages whose publish invocation is under way.
    pub publishing: Vec<PackageId>,
}

/// The release state as sets of identities.
pub struct SessionView {
    pub released: Set<Seq<char>>,
    pub ignored: Set<Seq<char>>,
    pub unreleased: Set<Seq<char>>,
    pub publishing: Set<Seq<char>>,
}

/// What a command asks to be done, as plain values.
pub enum EffectView {
    Nothing,
    Publish(Seq<char>),
    Bump(Seq<char>),
}

/// The identities in `list`.
pub open spec fn id_set(list: Seq<PackageId>) -> Set<Seq<char>> {
    Set::new(|id: Seq<char>| listed(list, id))
}

impl SessionView {
    /// Every package stands in at most one of the three states, and only
    /// unreleased packages are being published.
    pub open spec fn consistent(self) -> bool {
        &&& self.released.disjoint(self.ignored)
        &&& self.released.disjoint(self.unreleased)
        &&& self.ignored.disjoint(self.unreleased)
        &&& self.publishing.subset_of(self.unreleased)
    }

    /// The session knows the package.
    pub open spec fn tracks(self, id: Seq<char>) -> bool {
        self.released.contains(id) || self.ignored.contains(id) || self.unreleased.contains(id)
    }

    /// In how many of the three states the package stands.
    pub open spec fn memberships(self, id: Seq<char>) -> nat {
        let r: nat = if self.released.contains(id) {
            1
        } else {
            0
        };
        let i: nat = if self.ignored.contains(id) {
            1
        } else {
            0
        };
        let u: nat = if self.unreleased.contains(id) {
            1
        } else {
            0
        };
        r + i + u
    }

    /// A package can be ignored or released while it is unreleased and no
    /// publish invocation for it is under way.
    pub open spec fn open_for(self, id: Seq<char>) -> bool {
        self.unreleased.contains(id) && !self.publishing.contains(id)
    }

    /// The state after `Ignore(id)`.
    pub open spec fn ignore(self, id: Seq<char>) -> SessionView {
        if self.open_for(id) {
            SessionView {
                unreleased: self.unreleased.remove(id),
                ignored: self.ignored.insert(id),
                ..self
            }
        } else {
            self
        }
    }

    /// The state after `Release(id)`.
    pub open spec fn release(self, id: Seq<char>) -> SessionView {
        if self.open_for(id) {
            SessionView { publishing: self.publishing.insert(id), ..self }
        } else {
            self
        }
    }

    /// The state after `PublishDone(id, succeeded)`.
    pub open spec fn publish_done(self, id: Seq<char>, succeeded: bool) -> SessionView {
        if !self.publishing.contains(id) {
            self
        } else if succeeded {
            SessionView {
                publishing: self.publishing.remove(id),
                unreleased: self.unreleased.remove(id),
                released: self.released.insert(id),
                ..self
            }
        } else {
            SessionView { publishing: self.publishing.remove(id), ..self }
        }
    }

    /// The state after a command.
    pub open spec fn step(self, cmd: Command) -> SessionView {
        match cmd {
            Command::Ignore(id) => self.ignore(id@),
            Command::Release(id) => self.release(id@),
            Command::PublishDone(id, succeeded) => self.publish_done(id@, succeeded),
            Command::BumpMinor(_) => self,
        }
    }

    /// What a command asks the caller to do.
    pub open spec fn effect(self, cmd: Command) -> EffectView {
        match cmd {
            Command::Ignore(_) => EffectView::Nothing,
            Command::Release(id) => if self.open_for(id@) {
                EffectView::Publish(id@)
            } else {
                EffectView::Nothing
            },
            Command::PublishDone(_, _) => EffectView::Nothing,
            Command::BumpMinor(id) => if self.tracks(id@) {
                EffectView::Bump(id@)
            } else {
                EffectView::Nothing
            },
        }
    }
}

impl Effect {
    /// The effect as plain values.
    pub open spec fn view(&self) -> EffectView {
        match *self {
            Effect::Nothing => EffectView::Nothing,
            Effect::Publish(id) => EffectView::Publish(id@),
            Effect::Bump(id) => EffectView::Bump(id@),
        }
    }
}

/// Commands keep the state consistent.
pub proof fn lemma_step_consistent(s: SessionView, cmd: Command)
    requires
        s.consistent(),
    ensures
        s.step(cmd).consistent(),
        forall|id: Seq<char>| s.step(cmd).tracks(id) == s.tracks(id),
{
}

/// Ignoring a package twice is the same as ignoring it once, and
/// leaves it in exactly one state; the same holds of releasing and of
/// the end of a publish invocation.
pub proof fn lemma_marking_idempotent(s: SessionView, id: Seq<char>, succeeded: bool)
    requires
        s.consistent(),
    ensures
        s.ignore(id).ignore(id) == s.ignore(id),
        s.release(id).release(id) == s.release(id),
        s.publish_done(id, succeeded).publish_done(id, succeeded) == s.publish_done(id, succeeded),
        s.tracks(id) ==> s.ignore(id).memberships(id) == 1,
        s.tracks(id) ==> s.release(id).memberships(id) == 1,
        s.tracks(id) ==> s.publish_done(id, succeeded).memberships(id) == 1,
        s.open_for(id) ==> s.ignore(id).ignored.contains(id),
{
    assert(s.ignore(id).ignore(id).unreleased =~= s.ignore(id).unreleased);
    assert(s.ignore(id).ignore(id).ignored =~= s.ignore(id).ignored);
    assert(s.release(id).release(id).publishing =~= s.release(id).publishing);
    let d = s.publish_done(id, succeeded);
    assert(d.publish_done(id, succeeded).publishing =~= d.publishing);
    assert(d.publish_done(id, succeeded).unreleased =~= d.unreleased);
    assert(d.publish_done(id, succeeded).released =~= d.released);
}

/// Ignored and released packages stay what they are, whatever command
/// follows.
pub proof fn lemma_terminal_states(s: SessionView, cmd: Command, id: Seq<char>)
    requires
        s.consistent(),
    ensures
        s.ignored.contains(id) ==> s.step(cmd).ignored.contains(id),
        s.released.contains(id) ==> s.step(cmd).released.contains(id),
{
}

/// Takes `id` out of `list`.
fn take_out(list: &mut Vec<PackageId>, id: &PackageId) -> (was_there: bool)
    requires
        distinct_ids(old(list)@),
    ensures
        distinct_ids(final(list)@),
        was_there == id_set(old(list)@).contains(id@),
        id_set(final(list)@) == id_set(old(list)@).remove(id@),
{
    let ghost before = list@;
    match position(list, id) {
        Some(i) => {
            list.remove(i);
            proof {
                let after = list@;
                assert(after =~= before.remove(i as int));
                assert forall|d: Seq<char>|
                    id_set(after).contains(d) <==> id_set(before).remove(id@).contains(d) by {
                    if listed(after, d) {
                        let k = choose|k: int| 0 <= k < after.len() && (#[trigger] after[k])@ == d;
                        let k0 = if k < i {
                            k
                        } else {
                            k + 1
                        };
                        assert(before[k0]@ == d);
                    }
                    if listed(before, d) && d != id@ {
                        let k = choose|k: int| 0 <= k < before.len() && (#[trigger] before[k])@ == d;
                        let k1 = if k < i {
                            k
                        } else {
                            k - 1
                        };
                        assert(after[k1]@ == d);
                    }
                }
                assert(id_set(after) =~= id_set(before).remove(id@));
                assert forall|x: int, y: int|
                    0 <= x < after.len() && 0 <= y < after.len() && x != y implies after[x]@
                    != after[y]@ by {
                    let x0 = if x < i {
                        x
                    } else {
                        x + 1
                    };
                    let y0 = if y < i {
                        y
                    } else {
                        y + 1
                    };
                    assert(before[x0]@ != before[y0]@);
                }
            }
            true
        },
        None => {
            proof {
                assert(id_set(before) =~= id_set(before).remove(id@));
            }
            false
        },
    }
}

/// Puts `id`, which `list` does not hold, into `list`.
fn put_in(list: &mut Vec<PackageId>, id: PackageId)
    requires
        distinct_ids(old(list)@),
        !id_set(old(list)@).contains(id@),
    ensures
        distinct_ids(final(list)@),
        id_set(final(list)@) == id_set(old(list)@).insert(id@),
{
    let ghost before = list@;
    let ghost idv = id@;
    list.push(id);
    proof {
        let after = list@;
        assert forall|d: Seq<char>|
            id_set(after).contains(d) <==> id_set(before).insert(idv).contains(d) by {
            if listed(after, d) {
                let k = choose|k: int| 0 <= k < after.len() && (#[trigger] after[k])@ == d;
                if k < before.len() {
                    assert(before[k]@ == d);
                }
            }
            if listed(before, d) {
                let k = choose|k: int| 0 <= k < before.len() && (#[trigger] before[k])@ == d;
                assert(after[k]@ == d);
            }
            if d == idv {
                assert(after[before.len() as int]@ == d);
            }
        }
        assert(id_set(after) =~= id_set(before).insert(idv));
        assert forall|x: int, y: int|
            0 <= x < after.len() && 0 <= y < after.len() && x != y implies after[x]@
            != after[y]@ by {
            if x < before.len() && y < before.len() {
                assert(before[x]@ != before[y]@);
            } else if x < before.len() {
                assert(listed(before, before[x]@));
            } else {
                assert(listed(before, before[y]@));
            }
        }
    }
}

impl ReleaseState {
    /// The state as sets of identities.
    pub open spec fn view(&self) -> SessionView {
        SessionView {
            released: id_set(self.released@),
            ignored: id_set(self.ignored@),
            unreleased: id_set(self.unreleased@),
            publishing: id_set(self.publishing@),
        }
    }

    /// No list names a package twice, and the state is consistent.
    pub open spec fn wf(&self) -> bool {
        &&& distinct_ids(self.released@)
        &&& distinct_ids(self.ignored@)
        &&& distinct_ids(self.unreleased@)
        &&& distinct_ids(self.publishing@)
        &&& self@.consistent()
    }

    /// The state at the start of a session: the members that are never
    /// published are ignored, all others are unreleased.
    pub fn new(graph: &CrateGraph) -> (state: ReleaseState)
        requires
            graph.wf(),
        ensures
            state.wf(),
            state@.released == Set::<Seq<char>>::empty(),
            state@.publishing == Set::<Seq<char>>::empty(),
            forall|id: Seq<char>|
                state@.ignored.contains(id) <==> is_member(&graph.meta, id) && never_published(
                    package_of(graph.meta.packages@, id),
                ),
            forall|id: Seq<char>|
                state@.unreleased.contains(id) <==> is_member(&graph.meta, id) && !never_published(
                    package_of(graph.meta.packages@, id),
                ),
            forall|id: Seq<char>| #[trigger] state@.tracks(id) <==> is_member(&graph.meta, id),
            forall|id: Seq<char>|
                is_member(&graph.meta, id) ==> #[trigger] state@.memberships(id) == 1,
    {
        let mut ignored: Vec<PackageId> = Vec::new();
        let mut unreleased: Vec<PackageId> = Vec::new();
        let mut i: usize = 0;
        while i < graph.crates.len()
            invariant
                i <= graph.crates@.len(),
                graph.wf(),
                distinct_ids(ignored@),
                distinct_ids(unreleased@),
                forall|id: Seq<char>|
                    id_set(ignored@).contains(id) <==> listed(graph.crates@.take(i as int), id)
                        && never_published(package_of(graph.meta.packages@, id)),
                forall|id: Seq<char>|
                    id_set(unreleased@).contains(id) <==> listed(graph.crates@.take(i as int), id)
                        && !never_published(package_of(graph.meta.packages@, id)),
            decreases graph.crates.len() - i,
        {
            let id = &graph.crates[i];
            let ghost seen = graph.crates@.take(i as int);
            let ghost next = graph.crates@.take(i + 1);
            let ghost old_ignored = id_set(ignored@);
            let ghost old_unreleased = id_set(unreleased@);
            proof {
                assert(listed(graph.crates@, id@));
                assert(is_member(&graph.meta, id@));
                if listed(seen, id@) {
                    let k = choose|k: int| 0 <= k < seen.len() && (#[trigger] seen[k])@ == id@;
                    assert(graph.crates@[k]@ == id@);
                }
                assert(next[i as int]@ == id@);
                assert forall|d: Seq<char>| listed(next, d) <==> listed(seen, d) || d == id@ by {
                    if listed(next, d) {
                        let k = choose|k: int| 0 <= k < next.len() && (#[trigger] next[k])@ == d;
                        if k < i {
                            assert(seen[k]@ == d);
                        }
                    }
                    if listed(seen, d) {
                        let k = choose|k: int| 0 <= k < seen.len() && (#[trigger] seen[k])@ == d;
                        assert(next[k]@ == d);
                    }
                }
            }
            let restricted = graph.get_crate(id).is_never_published();
            if restricted {
                put_in(&mut ignored, id.duplicate());
            } else {
                put_in(&mut unreleased, id.duplicate());
            }
            i += 1;
        }
        proof {
            assert(graph.crates@.take(i as int) =~= graph.crates@);
        }
        let state = ReleaseState {
            released: Vec::new(),
            ignored,
            unreleased,
            publishing: Vec::new(),
        };
        proof {
            assert(state@.released =~= Set::<Seq<char>>::empty());
            assert(state@.publishing =~= Set::<Seq<char>>::empty());
        }
        state
    }

    /// Where `id` stands, or `None` where the session does not know it.
    pub fn status(&self, id: &PackageId) -> (r: Option<Status>)
        requires
            self.wf(),
        ensures
            r is Some <==> self@.tracks(id@),
            r == Some(Status::Released) <==> self@.released.contains(id@),
            r == Some(Status::Ignored) <==> self@.ignored.contains(id@),
            r == Some(Status::Unreleased) <==> self@.unreleased.contains(id@),
    {
        if position(&self.released, id).is_some() {
            Some(Status::Released)
        } else if position(&self.ignored, id).is_some() {
            Some(Status::Ignored)
        } else if position(&self.unreleased, id).is_some() {
            Some(Status::Unreleased)
        } else {
            None
        }
    }

    /// Whether a publish invocation for `id` is under way.
    pub fn is_publishing(&self, id: &PackageId) -> (r: bool)
        ensures
            r == self@.publishing.contains(id@),
    {
        position(&self.publishing, id).is_some()
    }

    /// Applies a command and says what the caller has to do.
    pub fn apply(&mut self, cmd: Command) -> (effect: Effect)
        requires
            old(self).wf(),
        ensures
            final(self).wf(),
            final(self)@ == old(self)@.step(cmd),
            effect@ == old(self)@.effect(cmd),
    {
        let ghost before = self@;
        let open = match &cmd {
            Command::Ignore(id) | Command::Release(id) => {
                position(&self.unreleased, id).is_some() && position(&self.publishing, id).is_none()
            },
            _ => false,
        };
        match cmd {
            Command::Ignore(id) => {
                if open {
                    take_out(&mut self.unreleased, &id);
                    put_in(&mut self.ignored, id);
                }
                assert(self@.unreleased =~= before.ignore(id@).unreleased);
                Effect::Nothing
            },
            Command::Release(id) => {
                if open {
                    put_in(&mut self.publishing, id.duplicate());
                    Effect::Publish(id)
                } else {
                    Effect::Nothing
                }
            },
            Command::PublishDone(id, succeeded) => {
                let was_publishing = take_out(&mut self.publishing, &id);
                if was_publishing && succeeded {
                    take_out(&mut self.unreleased, &id);
                    put_in(&mut self.released, id);
                }
                proof {
                    assert(self@.publishing =~= before.publish_done(id@, succeeded).publishing);
                }
                Effect::Nothing
            },
            Command::BumpMinor(id) => {
                if self.status(&id).is_some() {
                    Effect::Bump(id)
                } else {
                    Effect::Nothing
                }
            },
        }
    }
}

/// The identities among the first `bound` lines of the ranked list that
/// are not ignored, in the order of the list.
pub open spec fn active_upto(
    sorted: Seq<(PackageId, usize)>,
    ignored: Set<Seq<char>>,
    bound: nat,
) -> Seq<Seq<char>>
    decreases bound,
{
    if bound == 0 {
        Seq::empty()
    } else {
        let rest = active_upto(sorted, ignored, (bound - 1) as nat);
        let id = sorted[bound - 1].0@;
        if ignored.contains(id) {
            rest
        } else {
            rest.push(id)
        }
    }
}

impl ReleaseState {
    /// The packages to show for release, in rank order: those of the
    /// ranked list that are not ignored.
    pub fn active_rows(&self, sorted: &Vec<(PackageId, usize)>) -> (rows: Vec<PackageId>)
        ensures
            id_views(rows@) == active_upto(sorted@, self@.ignored, sorted@.len()),
    {
        let mut rows: Vec<PackageId> = Vec::new();
        let mut k: usize = 0;
        while k < sorted.len()
            invariant
                k <= sorted@.len(),
                id_views(rows@) == active_upto(sorted@, self@.ignored, k as nat),
            decreases sorted.len() - k,
        {
            let ghost before = id_views(rows@);
            let id = &sorted[k].0;
            if position(&self.ignored, id).is_none() {
                rows.push(id.duplicate());
                assert(id_views(rows@) =~= before.push(id@));
            }
            k += 1;
        }
        rows
    }
}

} // verus!
