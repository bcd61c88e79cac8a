//! The lifecycle state machine: the decision and transition rules for
//! `create`, `start`, `stop` and `delete`, and the snapshot-tag derivation.
//!
//! Runtime queries and runtime commands happen outside; their observations
//! come in as plain values (a running instance id, the moment of the call),
//! and every transition here is verified for every value of them.

use vstd::prelude::*;
use crate::model::Registry;
use crate::model::StatefulContainer;
use crate::model::HistoryEntry;
use crate::model::ContainerModel;
use crate::model::EntryModel;
use crate::model::contains_name;
use crate::model::is_first_match;
use crate::model::unique_names;
use crate::decimal::spec_dec_nat;
use crate::decimal::u64_to_dec;

verus! {

/// Why a lifecycle operation was refused. Each refusal leaves the registry
/// exactly as it was.
#[derive(Clone, Copy, PartialEq, Eq, Structural, Debug)]
pub enum LifecycleError {
    /// The external runtime binary is absent or unusable.
    RuntimeUnavailable,
    /// A container with this name is already registered.
    DuplicateName,
    /// No container with this name is registered.
    NotFound,
    /// A running instance exists, so the entry may not be deleted.
    StillRunning,
}

/// What `start` should do, decided from the registry and the observed
/// running instance id.
#[derive(Debug)]
pub enum StartAction {
    /// No container with this name is registered.
    NotFound,
    /// A running instance exists and is recorded in history: nothing to do.
    AlreadyCurrent,
    /// A running instance exists but history does not know it: the operator
    /// must stop or rename it by hand.
    Conflict,
    /// Nothing is running: instantiate this image.
    Run(String),
}

/// What `stop` should do, decided from the registry and the observed
/// instance id (running or stopped).
#[derive(Debug)]
pub enum StopAction {
    /// No container with this name is registered.
    NotFound,
    /// No instance exists on the runtime side.
    NoInstance,
    /// Stop the instance, then commit its state under this snapshot tag.
    Proceed(String),
}

/// How much runtime-side image state a delete should clear away.
#[derive(Clone, Copy, PartialEq, Eq, Structural, Debug)]
pub enum DeleteOption {
    /// Remove the registry entry only; images stay.
    EntryOnly,
    /// Also remove every committed snapshot image (the base image stays).
    AllSnapshots,
    /// As `AllSnapshots`, but keep the single most recent snapshot.
    KeepLatestSnapshot,
}

/// The registry after a successful `create`.
pub open spec fn spec_created(rs: Seq<ContainerModel>, name: Seq<char>, image: Seq<char>) -> Seq<
    ContainerModel,
> {
    rs.push(ContainerModel { name, image, history: Seq::empty() })
}

/// The entry a successful `start` appends: the observed instance id, the
/// moment of the call, and the container's base image.
pub open spec fn spec_start_entry(c: ContainerModel, id: Seq<char>, now: int) -> EntryModel {
    EntryModel { container_id: id, timestamp: now, image: c.image }
}

/// A container after a successful `start`.
pub open spec fn spec_started_container(c: ContainerModel, id: Seq<char>, now: int) -> ContainerModel {
    ContainerModel { history: c.history.push(spec_start_entry(c, id, now)), ..c }
}

/// The tag a stop commits to: the container's name, `":v"`, and the version
/// number in decimal.
pub open spec fn spec_snapshot_tag(name: Seq<char>, version: nat) -> Seq<char> {
    name + ":v"@ + spec_dec_nat(version)
}

/// The entry a successful `stop` appends: the id observed before the stop,
/// the moment of the call, and the freshly derived snapshot tag. The version
/// is the history length before the call, plus one.
pub open spec fn spec_stop_entry(c: ContainerModel, id: Seq<char>, now: int) -> EntryModel {
    EntryModel {
        container_id: id,
        timestamp: now,
        image: spec_snapshot_tag(c.name, (c.history.len() + 1) as nat),
    }
}

/// A container after a successful `stop`.
pub open spec fn spec_stopped_container(c: ContainerModel, id: Seq<char>, now: int) -> ContainerModel {
    ContainerModel { history: c.history.push(spec_stop_entry(c, id, now)), ..c }
}

/// The snapshot images recorded in a history: every entry's image that
/// differs from the base image, in history order.
pub open spec fn spec_snapshots(history: Seq<EntryModel>, base: Seq<char>) -> Seq<Seq<char>>
    decreases history.len(),
{
    if history.len() == 0 {
        Seq::empty()
    } else {
        let rest = spec_snapshots(history.drop_last(), base);
        if history.last().image == base {
            rest
        } else {
            rest.push(history.last().image)
        }
    }
}

/// The image references a delete hands back for runtime-side removal.
pub open spec fn spec_images_to_remove(c: ContainerModel, option: DeleteOption) -> Seq<Seq<char>> {
    match option {
        DeleteOption::EntryOnly => Seq::empty(),
        DeleteOption::AllSnapshots => spec_snapshots(c.history, c.image),
        DeleteOption::KeepLatestSnapshot => {
            let all = spec_snapshots(c.history, c.image);
            if all.len() == 0 {
                all
            } else {
                all.drop_last()
            }
        },
    }
}

/// Some history entry records this instance id.
pub open spec fn history_has_id(h: Seq<EntryModel>, id: Seq<char>) -> bool {
    exists|k: int| 0 <= k < h.len() && h[k].container_id == id
}

/// Derives the snapshot tag for the next stop: `<name>:v<len + 1>`,
/// evaluated before the new entry is appended.
pub fn snapshot_tag(name: &String, history_len: usize) -> (s: String)
    requires
        history_len < usize::MAX,
    ensures
        s@ =~= spec_snapshot_tag(name@, (history_len + 1) as nat),
{
    proof {
        reveal_strlit(":v");
    }
    let mut s = name.clone();
    s.append(":v");
    let version: u64 = (history_len as u64) + 1;
    s.append(u64_to_dec(version).as_str());
    s
}

impl Registry {
    /// Registers a new container with an empty history. Refused when the
    /// runtime is unavailable or the name is already taken; a refusal
    /// changes nothing.
    pub fn create(&mut self, runtime_available: bool, name: &String, image: &String) -> (r: Result<
        (),
        LifecycleError,
    >)
        ensures
            r is Ok <==> (runtime_available && !contains_name(old(self)@, name@)),
            r is Ok ==> final(self)@ =~= spec_created(old(self)@, name@, image@),
            r is Err ==> final(self)@ == old(self)@,
            !runtime_available ==> r == Err::<(), LifecycleError>(LifecycleError::RuntimeUnavailable),
            runtime_available && contains_name(old(self)@, name@) ==> r == Err::<(), LifecycleError>(
                LifecycleError::DuplicateName,
            ),
            old(self).wf() ==> final(self).wf(),
    {
        if !runtime_available {
            return Err(LifecycleError::RuntimeUnavailable);
        }
        match self.find_index(name) {
            Some(_) => Err(LifecycleError::DuplicateName),
            None => {
                let container = StatefulContainer {
                    name: name.clone(),
                    image: image.clone(),
                    history: Vec::new(),
                };
                let ghost old_view = self@;
                let ghost new_model = container@;
                self.containers.push(container);
                proof {
                    assert(new_model.history =~= Seq::<EntryModel>::empty());
                    assert(new_model == (ContainerModel {
                        name: name@,
                        image: image@,
                        history: Seq::empty(),
                    }));
                    assert(self@ =~= spec_created(old_view, name@, image@));
                    if unique_names(old_view) {
                        assert forall|i: int, j: int| 0 <= i < j < self@.len() implies self@[i].name
                            != self@[j].name by {
                            if j == old_view.len() {
                                assert(self@[i] == old_view[i]);
                            }
                        }
                    }
                }
                Ok(())
            },
        }
    }

    /// Decides what a `start` may do, given the id of the running instance
    /// the runtime reported for this name, if any.
    pub fn start_plan(&self, name: &String, running_id: &Option<String>) -> (r: StartAction)
        ensures
            r is NotFound <==> !contains_name(self@, name@),
            forall|i: int|
                is_first_match(self@, name@, i) ==> match running_id {
                    Some(id) => if history_has_id(self@[i].history, id@) {
                        r is AlreadyCurrent
                    } else {
                        r is Conflict
                    },
                    None => (r matches StartAction::Run(img) && img@ == self@[i].image),
                },
    {
        match self.find_index(name) {
            None => StartAction::NotFound,
            Some(i) => {
                let container = &self.containers[i];
                match running_id {
                    Some(id) => {
                        let ghost hist = container@.history;
                        let mut k: usize = 0;
                        let mut seen = false;
                        while k < container.history.len()
                            invariant
                                k <= container.history.len(),
                                hist == container@.history,
                                hist.len() == container.history.len(),
                                seen <==> history_has_id(hist.take(k as int), id@),
                            decreases container.history.len() - k,
                        {
                            let here = container.history[k].container_id == *id;
                            proof {
                                let pre = hist.take(k as int);
                                let post = hist.take(k as int + 1);
                                if history_has_id(pre, id@) {
                                    let m = choose|m: int|
                                        0 <= m < pre.len() && pre[m].container_id == id@;
                                    assert(post[m].container_id == id@);
                                }
                                if here {
                                    assert(post[k as int].container_id == id@);
                                }
                                if history_has_id(post, id@) {
                                    let m = choose|m: int|
                                        0 <= m < post.len() && post[m].container_id == id@;
                                    if m < k as int {
                                        assert(pre[m].container_id == id@);
                                    }
                                }
                            }
                            if here {
                                seen = true;
                            }
                            k = k + 1;
                        }
                        proof {
                            assert(hist.take(container.history.len() as int) =~= hist);
                            assert(container@ == self@[i as int]);
                        }
                        if seen {
                            StartAction::AlreadyCurrent
                        } else {
                            StartAction::Conflict
                        }
                    },
                    None => StartAction::Run(container.image.clone()),
                }
            },
        }
    }

    /// Appends the entry a successful `start` produced: the runtime-assigned
    /// instance id and the base image, at the given moment.
    pub fn record_start(&mut self, name: &String, container_id: String, now: i64) -> (r: Result<
        (),
        LifecycleError,
    >)
        ensures
            r is Ok <==> contains_name(old(self)@, name@),
            r is Err ==> final(self)@ == old(self)@ && r == Err::<(), LifecycleError>(
                LifecycleError::NotFound,
            ),
            forall|i: int|
                is_first_match(old(self)@, name@, i) ==> final(self)@ =~= old(self)@.update(
                    i,
                    spec_started_container(old(self)@[i], container_id@, now as int),
                ),
            old(self).wf() ==> final(self).wf(),
    {
        let ghost old_view = self@;
        match self.find_index(name) {
            None => Err(LifecycleError::NotFound),
            Some(i) => {
                let mut container = self.containers.remove(i);
                let entry = HistoryEntry {
                    container_id,
                    timestamp: now,
                    image: container.image.clone(),
                };
                container.history.push(entry);
                self.containers.insert(i, container);
                proof {
                    lemma_first_match_unique(old_view, name@, i as int);
                    let updated = spec_started_container(old_view[i as int], container_id@, now as int);
                    assert(container@.history =~= updated.history);
                    assert(container@ == updated);
                    assert(self@ =~= old_view.update(i as int, updated));
                    if unique_names(old_view) {
                        lemma_update_same_name_keeps_wf(old_view, self@, i as int);
                    }
                }
                Ok(())
            },
        }
    }

    /// Decides what a `stop` may do, given the id of the instance (running
    /// or stopped) the runtime reported for this name, if any. On `Proceed`
    /// it hands back the derived snapshot tag.
    pub fn stop_plan(&self, name: &String, any_id: &Option<String>) -> (r: StopAction)
        requires
            self.histories_bounded(),
        ensures
            r is NotFound <==> !contains_name(self@, name@),
            contains_name(self@, name@) && any_id is None ==> r is NoInstance,
            forall|i: int|
                is_first_match(self@, name@, i) && any_id is Some ==> (r matches StopAction::Proceed(
                    tag,
                ) && tag@ == spec_snapshot_tag(
                    self@[i].name,
                    (self@[i].history.len() + 1) as nat,
                )),
    {
        match self.find_index(name) {
            None => StopAction::NotFound,
            Some(i) => {
                match any_id {
                    None => StopAction::NoInstance,
                    Some(_) => {
                        let container = &self.containers[i];
                        proof {
                            assert(container@ == self@[i as int]);
                            assert(self@[i as int].history.len() < usize::MAX);
                        }
                        let tag = snapshot_tag(&container.name, container.history.len());
                        StopAction::Proceed(tag)
                    },
                }
            },
        }
    }

    /// Appends the entry a successful stop-and-commit produced: the id
    /// observed before the stop, and the snapshot tag
    /// `<name>:v<history length + 1>`.
    pub fn record_stop(&mut self, name: &String, container_id: String, now: i64) -> (r: Result<
        (),
        LifecycleError,
    >)
        requires
            old(self).histories_bounded(),
        ensures
            r is Ok <==> contains_name(old(self)@, name@),
            r is Err ==> final(self)@ == old(self)@ && r == Err::<(), LifecycleError>(
                LifecycleError::NotFound,
            ),
            forall|i: int|
                is_first_match(old(self)@, name@, i) ==> final(self)@ =~= old(self)@.update(
                    i,
                    spec_stopped_container(old(self)@[i], container_id@, now as int),
                ),
            old(self).wf() ==> final(self).wf(),
    {
        let ghost old_view = self@;
        match self.find_index(name) {
            None => Err(LifecycleError::NotFound),
            Some(i) => {
                let mut container = self.containers.remove(i);
                proof {
                    assert(container@ == old_view[i as int]);
                    assert(old_view[i as int].history.len() < usize::MAX);
                }
                let tag = snapshot_tag(&container.name, container.history.len());
                let entry = HistoryEntry { container_id, timestamp: now, image: tag };
                container.history.push(entry);
                self.containers.insert(i, container);
                proof {
                    lemma_first_match_unique(old_view, name@, i as int);
                    let updated = spec_stopped_container(old_view[i as int], container_id@, now as int);
                    assert(container@.history =~= updated.history);
                    assert(container@ == updated);
                    assert(self@ =~= old_view.update(i as int, updated));
                    if unique_names(old_view) {
                        lemma_update_same_name_keeps_wf(old_view, self@, i as int);
                    }
                }
                Ok(())
            },
        }
    }

    /// Removes a registry entry, refused while an instance is still running,
    /// and hands back the snapshot images the chosen option clears away.
    /// Every other container's entry and history stay untouched.
    pub fn delete(&mut self, name: &String, option: DeleteOption, running_id: &Option<String>) -> (r:
        Result<Vec<String>, LifecycleError>)
        ensures
            r is Ok <==> (contains_name(old(self)@, name@) && running_id is None),
            r is Err ==> final(self)@ == old(self)@,
            !contains_name(old(self)@, name@) ==> r == Err::<Vec<String>, LifecycleError>(
                LifecycleError::NotFound,
            ),
            contains_name(old(self)@, name@) && running_id is Some ==> r == Err::<
                Vec<String>,
                LifecycleError,
            >(LifecycleError::StillRunning),
            forall|i: int|
                is_first_match(old(self)@, name@, i) && running_id is None ==> final(self)@ =~= old(
                    self,
                )@.remove(i) && (r matches Ok(imgs) && imgs.deep_view() =~= spec_images_to_remove(
                    old(self)@[i],
                    option,
                )),
            old(self).wf() ==> final(self).wf(),
    {
        let ghost old_view = self@;
        match self.find_index(name) {
            None => Err(LifecycleError::NotFound),
            Some(i) => {
                if running_id.is_some() {
                    return Err(LifecycleError::StillRunning);
                }
                let container = self.containers.remove(i);
                let images = snapshot_images_for(&container, option);
                proof {
                    lemma_first_match_unique(old_view, name@, i as int);
                    assert(self@ =~= old_view.remove(i as int));
                    if unique_names(old_view) {
                        assert forall|p: int, q: int|
                            0 <= p < q < self@.len() implies self@[p].name != self@[q].name by {
                            let p0: int = if p < i as int {
                                p
                            } else {
                                p + 1
                            };
                            let q0: int = if q < i as int {
                                q
                            } else {
                                q + 1
                            };
                            assert(self@[p] == old_view[p0]);
                            assert(self@[q] == old_view[q0]);
                        }
                    }
                }
                Ok(images)
            },
        }
    }
}

/// Collects the snapshot images the given delete option clears away.
fn snapshot_images_for(c: &StatefulContainer, option: DeleteOption) -> (r: Vec<String>)
    ensures
        r.deep_view() =~= spec_images_to_remove(c@, option),
{
    match option {
        DeleteOption::EntryOnly => Vec::new(),
        DeleteOption::AllSnapshots => snapshot_images(c),
        DeleteOption::KeepLatestSnapshot => {
            let mut all = snapshot_images(c);
            if all.len() > 0 {
                let _last = all.pop();
                proof {
                    assert(all.deep_view() =~= spec_images_to_remove(c@, option));
                }
            }
            all
        },
    }
}

/// Collects every history image that differs from the base image, in order.
fn snapshot_images(c: &StatefulContainer) -> (r: Vec<String>)
    ensures
        r.deep_view() =~= spec_snapshots(c@.history, c@.image),
{
    let mut out: Vec<String> = Vec::new();
    let mut k: usize = 0;
    while k < c.history.len()
        invariant
            k <= c.history.len(),
            c@.history.len() == c.history.len(),
            out.deep_view() =~= spec_snapshots(c@.history.take(k as int), c@.image),
        decreases c.history.len() - k,
    {
        proof {
            assert(c@.history.take(k as int + 1).drop_last() =~= c@.history.take(k as int));
            assert(c@.history.take(k as int + 1).last() == c@.history[k as int]);
        }
        if !(c.history[k].image == c.image) {
            out.push(c.history[k].image.clone());
        }
        k = k + 1;
    }
    proof {
        assert(c@.history.take(c.history.len() as int) =~= c@.history);
    }
    out
}

/// The first match for a name is the only match of any first-match witness.
proof fn lemma_first_match_unique(rs: Seq<ContainerModel>, name: Seq<char>, i0: int)
    requires
        is_first_match(rs, name, i0),
    ensures
        forall|i: int| is_first_match(rs, name, i) ==> i == i0,
{
    assert forall|i: int| is_first_match(rs, name, i) implies i == i0 by {
        if i < i0 {
            assert(rs[i].name != name);
        }
        if i0 < i {
            assert(rs[i0].name != name);
        }
    }
}

/// An update that keeps the container's name keeps names unique.
proof fn lemma_update_same_name_keeps_wf(
    old_rs: Seq<ContainerModel>,
    new_rs: Seq<ContainerModel>,
    i: int,
)
    requires
        0 <= i < old_rs.len(),
        new_rs.len() == old_rs.len(),
        forall|j: int| 0 <= j < new_rs.len() ==> new_rs[j].name == old_rs[j].name,
        unique_names(old_rs),
    ensures
        unique_names(new_rs),
{
}

} // verus!
