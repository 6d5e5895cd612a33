use vstd::prelude::*;

verus! {

/// One installed package of a runtime version.
pub struct PackageEntry {
    pub name: String,
    pub version: String,
}

impl View for PackageEntry {
    type V = (Seq<char>, Seq<char>);

    open spec fn view(&self) -> (Seq<char>, Seq<char>) {
        (self.name@, self.version@)
    }
}

/// What one population of a version produced. A snapshot is replaced
/// wholesale by a later one and never edited in place.
pub enum PackageSnapshot {
    /// The packages of the version, in the order the source listed them.
    Listed(Vec<PackageEntry>),
    /// The fetch failed; the text says why.
    Failed(String),
}

/// The mathematical value of a `PackageSnapshot`.
pub enum SnapshotModel {
    Listed(Seq<(Seq<char>, Seq<char>)>),
    Failed(Seq<char>),
}

pub open spec fn entries_model(v: Seq<PackageEntry>) -> Seq<(Seq<char>, Seq<char>)> {
    v.map_values(|e: PackageEntry| e@)
}

impl View for PackageSnapshot {
    type V = SnapshotModel;

    open spec fn view(&self) -> SnapshotModel {
        match self {
            PackageSnapshot::Listed(v) => SnapshotModel::Listed(entries_model(v@)),
            PackageSnapshot::Failed(d) => SnapshotModel::Failed(d@),
        }
    }
}

pub open spec fn snapshot_opt_model(o: Option<&PackageSnapshot>) -> Option<SnapshotModel> {
    match o {
        Some(s) => Some(s@),
        None => None,
    }
}

impl PackageEntry {
    pub fn new(name: String, version: String) -> (r: PackageEntry)
        ensures
            r@ == (name@, version@),
    {
        PackageEntry { name, version }
    }
}

impl PackageSnapshot {
    /// The snapshot that a fetch outcome stands for: the package list on
    /// success, a failure record holding the error text otherwise.
    pub fn from_fetch(outcome: Result<Vec<PackageEntry>, String>) -> (r: PackageSnapshot)
        ensures
            r@ == fetch_model(outcome),
    {
        match outcome {
            Ok(v) => PackageSnapshot::Listed(v),
            Err(d) => PackageSnapshot::Failed(d),
        }
    }
}

pub open spec fn fetch_model(outcome: Result<Vec<PackageEntry>, String>) -> SnapshotModel {
    match outcome {
        Ok(v) => SnapshotModel::Listed(entries_model(v@)),
        Err(d) => SnapshotModel::Failed(d@),
    }
}

/// What the package panel shows for the selected version.
#[derive(PartialEq, Eq, Structural, Clone, Copy, Debug)]
pub enum PanelState {
    /// No snapshot has been stored yet.
    Loading,
    /// The last fetch succeeded and listed no package.
    Empty,
    /// The last fetch failed.
    Failed,
    /// The last fetch listed at least one package.
    Listed,
}

pub open spec fn panel_model(o: Option<SnapshotModel>) -> PanelState {
    match o {
        None => PanelState::Loading,
        Some(SnapshotModel::Failed(_)) => PanelState::Failed,
        Some(SnapshotModel::Listed(v)) => if v.len() == 0 {
            PanelState::Empty
        } else {
            PanelState::Listed
        },
    }
}

/// Classifies a stored snapshot, or its absence, for the package panel.
pub fn panel_state(o: Option<&PackageSnapshot>) -> (r: PanelState)
    ensures
        r == panel_model(snapshot_opt_model(o)),
{
    match o {
        None => PanelState::Loading,
        Some(PackageSnapshot::Failed(_)) => PanelState::Failed,
        Some(PackageSnapshot::Listed(v)) => if v.len() == 0 {
            PanelState::Empty
        } else {
            PanelState::Listed
        },
    }
}

} // verus!
