//! Data model: history entries, stateful containers, the registry, and the
//! operator settings, together with their mathematical views.

use vstd::prelude::*;

verus! {

/// One record of a runtime instantiation or commit: the runtime-assigned
/// instance id, the moment it was recorded (seconds since the Unix epoch,
/// UTC), and the image reference active at that time.
pub struct HistoryEntry {
    pub container_id: String,
    pub timestamp: i64,
    pub image: String,
}

/// Mathematical image of a `HistoryEntry`.
pub struct EntryModel {
    pub container_id: Seq<char>,
    pub timestamp: int,
    pub image: Seq<char>,
}

impl View for HistoryEntry {
    type V = EntryModel;

    open spec fn view(&self) -> EntryModel {
        EntryModel {
            container_id: self.container_id@,
            timestamp: self.timestamp as int,
            image: self.image@,
        }
    }
}

/// A named logical container: its unique name, the base image it is
/// instantiated from, and the append-only history of instantiations.
pub struct StatefulContainer {
    pub name: String,
    pub image: String,
    pub history: Vec<HistoryEntry>,
}

/// Mathematical image of a `StatefulContainer`.
pub struct ContainerModel {
    pub name: Seq<char>,
    pub image: Seq<char>,
    pub history: Seq<EntryModel>,
}

/// The mathematical image of a stored history.
pub open spec fn history_view(h: Seq<HistoryEntry>) -> Seq<EntryModel> {
    h.map_values(|e: HistoryEntry| e@)
}

impl View for StatefulContainer {
    type V = ContainerModel;

    open spec fn view(&self) -> ContainerModel {
        ContainerModel {
            name: self.name@,
            image: self.image@,
            history: history_view(self.history@),
        }
    }
}

/// The set of registered stateful containers, in registration order.
pub struct Registry {
    pub containers: Vec<StatefulContainer>,
}

/// The mathematical image of the stored container list.
pub open spec fn containers_view(cs: Seq<StatefulContainer>) -> Seq<ContainerModel> {
    cs.map_values(|c: StatefulContainer| c@)
}

impl View for Registry {
    type V = Seq<ContainerModel>;

    open spec fn view(&self) -> Seq<ContainerModel> {
        containers_view(self.containers@)
    }
}

/// Container names are unique across the registry.
pub open spec fn unique_names(rs: Seq<ContainerModel>) -> bool {
    forall|i: int, j: int| 0 <= i < j < rs.len() ==> rs[i].name != rs[j].name
}

/// Some registered container carries this name.
pub open spec fn contains_name(rs: Seq<ContainerModel>, name: Seq<char>) -> bool {
    exists|i: int| 0 <= i < rs.len() && rs[i].name == name
}

/// `i` is the first index whose container carries `name`.
pub open spec fn is_first_match(rs: Seq<ContainerModel>, name: Seq<char>, i: int) -> bool {
    &&& 0 <= i < rs.len()
    &&& rs[i].name == name
    &&& forall|j: int| 0 <= j < i ==> rs[j].name != name
}

impl Registry {
    /// Well-formedness: no two registered containers share a name.
    pub open spec fn wf(&self) -> bool {
        unique_names(self@)
    }

    /// Machine bound needed before a history can grow by one entry.
    pub open spec fn histories_bounded(&self) -> bool {
        forall|i: int| 0 <= i < self@.len() ==> #[trigger] self@[i].history.len() < usize::MAX
    }

    /// An empty registry, the state assumed when no persisted copy exists.
    pub fn new() -> (r: Registry)
        ensures
            r@ =~= Seq::<ContainerModel>::empty(),
            r.wf(),
    {
        Registry { containers: Vec::new() }
    }

    /// Index of the first container named `name`, if any.
    pub fn find_index(&self, name: &String) -> (r: Option<usize>)
        ensures
            match r {
                Some(i) => is_first_match(self@, name@, i as int),
                None => !contains_name(self@, name@),
            },
    {
        let mut i: usize = 0;
        while i < self.containers.len()
            invariant
                i <= self.containers.len(),
                self@.len() == self.containers@.len(),
                forall|j: int| 0 <= j < i ==> self@[j].name != name@,
            decreases self.containers.len() - i,
        {
            if self.containers[i].name == *name {
                assert(self@[i as int].name == name@);
                return Some(i);
            }
            assert(self@[i as int].name != name@);
            i = i + 1;
        }
        None
    }
}

/// The external container engine the tool drives.
#[derive(Clone, Copy, PartialEq, Eq, Structural, Debug)]
pub enum Runtime {
    Docker,
    Podman,
}

/// Process-wide operator settings: whether every runtime command is prefixed
/// with a privilege-elevation wrapper, and which engine binary is used.
#[derive(Clone, Copy, PartialEq, Eq, Structural, Debug)]
pub struct Config {
    pub use_sudo: bool,
    pub container_runtime: Runtime,
}

impl Config {
    /// The defaults synthesized when no persisted settings exist.
    pub fn default_config() -> (r: Config)
        ensures
            r == (Config { use_sudo: false, container_runtime: Runtime::Docker }),
    {
        Config { use_sudo: false, container_runtime: Runtime::Docker }
    }
}

/// The textual name of a runtime, as persisted and as invoked.
pub open spec fn spec_runtime_name(r: Runtime) -> Seq<char> {
    match r {
        Runtime::Docker => "docker"@,
        Runtime::Podman => "podman"@,
    }
}

impl Runtime {
    /// The engine's binary name.
    pub fn name(&self) -> (s: String)
        ensures
            s@ == spec_runtime_name(*self),
    {
        proof {
            reveal_strlit("docker");
            reveal_strlit("podman");
        }
        match self {
            Runtime::Docker => "docker".to_owned(),
            Runtime::Podman => "podman".to_owned(),
        }
    }
}

} // verus!
