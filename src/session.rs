use vstd::prelude::*;
use crate::cache::{
    CacheModel, SlotModel, VersionCache, stored, pending, begin_model, finish_model,
};
use crate::snapshot::{
    PackageEntry, PackageSnapshot, PanelState, SnapshotModel, fetch_model, panel_model,
    panel_state, snapshot_opt_model,
};

verus! {

/// Which view the user is in.
#[derive(PartialEq, Eq, Structural, Clone, Copy, Debug)]
pub enum Mode {
    /// Moving through the list of versions.
    Browsing,
    /// Choosing between switching to the selected version and adding packages to it.
    ConfirmingAction,
    /// Moving through the candidates of a remote package search.
    ListingRemote,
    /// Typing the text of a remote package search.
    QueryingRemote,
}

/// A decoded key press.
#[derive(PartialEq, Eq, Structural, Clone, Copy, Debug)]
pub enum KeyInput {
    Up,
    Down,
    Enter,
    Escape,
    Backspace,
    Char(char),
}

/// What the session asks its host to do after a step.
pub enum Command {
    Nothing,
    /// End the program.
    Quit,
    /// Start a population of this version key, and report it back with `on_fetched`.
    Fetch(String),
    /// Make this version the active one, and report it back with `on_switch_result`.
    Switch(String),
    /// Search the remote index with this text, and report it back with `on_search_results`.
    Search(Vec<char>),
    /// Install this package, and report it back with `on_install_result`.
    Install(String),
}

pub enum CommandModel {
    Nothing,
    Quit,
    Fetch(Seq<char>),
    Switch(Seq<char>),
    Search(Seq<char>),
    Install(Seq<char>),
}

impl View for Command {
    type V = CommandModel;

    open spec fn view(&self) -> CommandModel {
        match self {
            Command::Nothing => CommandModel::Nothing,
            Command::Quit => CommandModel::Quit,
            Command::Fetch(k) => CommandModel::Fetch(k@),
            Command::Switch(k) => CommandModel::Switch(k@),
            Command::Search(q) => CommandModel::Search(q@),
            Command::Install(n) => CommandModel::Install(n@),
        }
    }
}

/// A transient message for the user.
pub enum Notice {
    /// Switching the active version failed, with the reason.
    SwitchFailed(String),
    /// The package was installed.
    Installed(String),
    /// Installing the package failed, with the reason.
    InstallFailed(String, String),
    /// The remote search failed, with the reason.
    SearchFailed(String),
}

pub enum NoticeModel {
    SwitchFailed(Seq<char>),
    Installed(Seq<char>),
    InstallFailed(Seq<char>, Seq<char>),
    SearchFailed(Seq<char>),
}

impl View for Notice {
    type V = NoticeModel;

    open spec fn view(&self) -> NoticeModel {
        match self {
            Notice::SwitchFailed(d) => NoticeModel::SwitchFailed(d@),
            Notice::Installed(n) => NoticeModel::Installed(n@),
            Notice::InstallFailed(n, d) => NoticeModel::InstallFailed(n@, d@),
            Notice::SearchFailed(d) => NoticeModel::SearchFailed(d@),
        }
    }
}

pub open spec fn notice_opt_model(o: Option<Notice>) -> Option<NoticeModel> {
    match o {
        Some(n) => Some(n@),
        None => None,
    }
}

pub open spec fn strings_model(v: Seq<String>) -> Seq<Seq<char>> {
    v.map_values(|s: String| s@)
}

/// The mathematical value of a `Session`.
pub struct SessionModel {
    pub keys: Seq<Seq<char>>,
    pub selected: int,
    pub active: Seq<char>,
    pub mode: Mode,
    pub cache: CacheModel,
    pub candidates: Seq<Seq<char>>,
    pub candidate: int,
    pub query: Seq<char>,
    pub notice: Option<NoticeModel>,
}

/// The indices stay inside their lists (or at 0 where the list is empty).
pub open spec fn model_valid(m: SessionModel) -> bool {
    &&& if m.keys.len() == 0 { m.selected == 0 } else { 0 <= m.selected < m.keys.len() }
    &&& if m.candidates.len() == 0 { m.candidate == 0 } else { 0 <= m.candidate < m.candidates.len() }
}

/// The snapshot shown for the selected version, if any.
pub open spec fn shown_model(m: SessionModel) -> Option<SnapshotModel> {
    if 0 <= m.selected < m.keys.len() {
        stored(m.cache, m.keys[m.selected])
    } else {
        None
    }
}

/// The keys of `s` without repeats, each where it first occurs.
pub open spec fn distinct_keys(s: Seq<Seq<char>>) -> Seq<Seq<char>>
    decreases s.len(),
{
    if s.len() == 0 {
        Seq::empty()
    } else {
        let p = distinct_keys(s.drop_last());
        if p.contains(s.last()) {
            p
        } else {
            p.push(s.last())
        }
    }
}

proof fn lemma_distinct_keys_contains(s: Seq<Seq<char>>, k: Seq<char>)
    ensures
        distinct_keys(s).contains(k) <==> s.contains(k),
    decreases s.len(),
{
    if s.len() > 0 {
        let d = s.drop_last();
        lemma_distinct_keys_contains(d, k);
        let p = distinct_keys(d);
        if s.contains(k) && k != s.last() {
            let j = choose|j: int| 0 <= j < s.len() && s[j] == k;
            assert(d[j] == k);
        }
        if d.contains(k) {
            let j = choose|j: int| 0 <= j < d.len() && d[j] == k;
            assert(s[j] == k);
        }
        if k == s.last() {
            assert(s[s.len() - 1] == k);
        }
        if !p.contains(s.last()) && p.push(s.last()).contains(k) && k != s.last() {
            let j = choose|j: int| 0 <= j < p.push(s.last()).len() && p.push(s.last())[j] == k;
            assert(p[j] == k);
        }
        if !p.contains(s.last()) && k == s.last() {
            assert(p.push(s.last())[p.len() as int] == k);
        }
        if !p.contains(s.last()) && p.contains(k) {
            let j = choose|j: int| 0 <= j < p.len() && p[j] == k;
            assert(p.push(s.last())[j] == k);
        }
    }
}

/// The cache right after startup: every known key has a population under way.
pub open spec fn startup_cache(keys: Seq<Seq<char>>) -> CacheModel {
    Map::new(|k: Seq<char>| keys.contains(k), |k: Seq<char>| SlotModel { snapshot: None, in_flight: true })
}

/// Selecting index `i`: its key is requested when it has neither a snapshot
/// nor a population under way.
pub open spec fn navigate_model(m: SessionModel, i: int) -> (SessionModel, CommandModel) {
    let k = m.keys[i];
    if stored(m.cache, k) is None && !pending(m.cache, k) {
        (SessionModel { selected: i, cache: begin_model(m.cache, k), ..m }, CommandModel::Fetch(k))
    } else {
        (SessionModel { selected: i, ..m }, CommandModel::Nothing)
    }
}

pub open spec fn next_model(m: SessionModel) -> (SessionModel, CommandModel) {
    if m.selected + 1 < m.keys.len() {
        navigate_model(m, m.selected + 1)
    } else {
        (m, CommandModel::Nothing)
    }
}

pub open spec fn previous_model(m: SessionModel) -> (SessionModel, CommandModel) {
    if 0 < m.selected && m.selected < m.keys.len() {
        navigate_model(m, m.selected - 1)
    } else {
        (m, CommandModel::Nothing)
    }
}

/// Whether `i` is the first position of `k` in `keys`.
pub open spec fn first_at(keys: Seq<Seq<char>>, k: Seq<char>, i: int) -> bool {
    &&& 0 <= i < keys.len()
    &&& keys[i] == k
    &&& forall|j: int| 0 <= j < i ==> keys[j] != k
}

/// An observation of the externally active version. A change moves the
/// selection to that version, when it is known, and requests its population
/// unless one is under way.
pub open spec fn poll_model(m: SessionModel, polled: Seq<char>) -> (SessionModel, CommandModel) {
    if polled == m.active {
        (m, CommandModel::Nothing)
    } else if m.keys.contains(polled) {
        let i = choose|i: int| first_at(m.keys, polled, i);
        if pending(m.cache, polled) {
            (SessionModel { active: polled, selected: i, ..m }, CommandModel::Nothing)
        } else {
            (
                SessionModel { active: polled, selected: i, cache: begin_model(m.cache, polled), ..m },
                CommandModel::Fetch(polled),
            )
        }
    } else {
        (SessionModel { active: polled, ..m }, CommandModel::Nothing)
    }
}

pub open spec fn is_down(k: KeyInput) -> bool {
    k == KeyInput::Down || k == KeyInput::Char('j')
}

pub open spec fn is_up(k: KeyInput) -> bool {
    k == KeyInput::Up || k == KeyInput::Char('k')
}

pub open spec fn is_cancel(k: KeyInput) -> bool {
    k == KeyInput::Escape || k == KeyInput::Char('q')
}

/// One key press. A notice lasts until the next key press. Quitting is only
/// possible while browsing; in the nested views the quit key goes back to
/// browsing first.
pub open spec fn key_model(m: SessionModel, key: KeyInput) -> (SessionModel, CommandModel) {
    let m0 = SessionModel { notice: None, ..m };
    match m.mode {
        Mode::Browsing => if is_down(key) {
            next_model(m0)
        } else if is_up(key) {
            previous_model(m0)
        } else if key == KeyInput::Enter {
            (SessionModel { mode: Mode::ConfirmingAction, ..m0 }, CommandModel::Nothing)
        } else if key == KeyInput::Char('q') {
            (m0, CommandModel::Quit)
        } else {
            (m0, CommandModel::Nothing)
        },
        Mode::ConfirmingAction => if key == KeyInput::Char('1') {
            if 0 <= m.selected < m.keys.len() {
                (SessionModel { mode: Mode::Browsing, ..m0 }, CommandModel::Switch(m.keys[m.selected]))
            } else {
                (SessionModel { mode: Mode::Browsing, ..m0 }, CommandModel::Nothing)
            }
        } else if key == KeyInput::Char('2') {
            (
                SessionModel {
                    mode: Mode::ListingRemote,
                    candidates: Seq::empty(),
                    candidate: 0,
                    ..m0
                },
                CommandModel::Search(Seq::empty()),
            )
        } else if is_cancel(key) {
            (SessionModel { mode: Mode::Browsing, ..m0 }, CommandModel::Nothing)
        } else {
            (m0, CommandModel::Nothing)
        },
        Mode::ListingRemote => if is_down(key) {
            if m.candidate + 1 < m.candidates.len() {
                (SessionModel { candidate: m.candidate + 1, ..m0 }, CommandModel::Nothing)
            } else {
                (m0, CommandModel::Nothing)
            }
        } else if is_up(key) {
            if m.candidate > 0 {
                (SessionModel { candidate: m.candidate - 1, ..m0 }, CommandModel::Nothing)
            } else {
                (m0, CommandModel::Nothing)
            }
        } else if key == KeyInput::Enter {
            if 0 <= m.candidate < m.candidates.len() {
                (
                    SessionModel { mode: Mode::Browsing, ..m0 },
                    CommandModel::Install(m.candidates[m.candidate]),
                )
            } else {
                (m0, CommandModel::Nothing)
            }
        } else if key == KeyInput::Char('s') {
            (m0, CommandModel::Search(Seq::empty()))
        } else if key == KeyInput::Char('a') {
            (SessionModel { mode: Mode::QueryingRemote, query: Seq::empty(), ..m0 }, CommandModel::Nothing)
        } else if is_cancel(key) {
            (SessionModel { mode: Mode::Browsing, ..m0 }, CommandModel::Nothing)
        } else {
            (m0, CommandModel::Nothing)
        },
        Mode::QueryingRemote => match key {
            KeyInput::Char(c) => (
                SessionModel { query: m.query.push(c), ..m0 },
                CommandModel::Search(m.query.push(c)),
            ),
            KeyInput::Backspace => {
                let q = if m.query.len() > 0 { m.query.drop_last() } else { m.query };
                (SessionModel { query: q, ..m0 }, CommandModel::Search(q))
            },
            KeyInput::Enter | KeyInput::Escape => (
                SessionModel { mode: Mode::ListingRemote, ..m0 },
                CommandModel::Nothing,
            ),
            _ => (m0, CommandModel::Nothing),
        },
    }
}


/// The state the render loop and the scheduler share: the known version
/// keys, the selection, the externally active version, the view the user is
/// in, and the cache of package snapshots.
pub struct Session {
    versions: Vec<String>,
    selected: usize,
    active: String,
    mode: Mode,
    cache: VersionCache,
    candidates: Vec<String>,
    candidate: usize,
    query: Vec<char>,
    notice: Option<Notice>,
}

impl View for Session {
    type V = SessionModel;

    closed spec fn view(&self) -> SessionModel {
        SessionModel {
            keys: strings_model(self.versions@),
            selected: self.selected as int,
            active: self.active@,
            mode: self.mode,
            cache: self.cache.view(),
            candidates: strings_model(self.candidates@),
            candidate: self.candidate as int,
            query: self.query@,
            notice: notice_opt_model(self.notice),
        }
    }
}

impl Session {
    pub closed spec fn wf(&self) -> bool {
        self.cache.wf() && model_valid(self@)
    }

    /// A well-formed session keeps its selection inside the version list and
    /// its highlighted candidate inside the candidate list.
    pub proof fn lemma_indices_in_range(&self)
        requires
            self.wf(),
        ensures
            model_valid(self@),
    {
    }

    /// Starts a session over the known version keys, with the first one
    /// selected. Returns the keys to populate: each distinct known key once,
    /// the selected one first.
    pub fn start(versions: Vec<String>, active: String) -> (r: (Session, Vec<String>))
        ensures
            r.0.wf(),
            r.0@ == (SessionModel {
                keys: strings_model(versions@),
                selected: 0,
                active: active@,
                mode: Mode::Browsing,
                cache: startup_cache(strings_model(versions@)),
                candidates: Seq::empty(),
                candidate: 0,
                query: Seq::empty(),
                notice: None,
            }),
            forall|k: Seq<char>|
                strings_model(r.1@).contains(k) <==> strings_model(versions@).contains(k),
            strings_model(r.1@).no_duplicates(),
            strings_model(r.1@) == distinct_keys(strings_model(versions@)),
            versions@.len() > 0 ==> r.1@.len() > 0 && r.1@[0]@ == versions@[0]@,
    {
        let mut cache = VersionCache::new();
        let mut fetches: Vec<String> = Vec::new();
        let ghost keys = strings_model(versions@);
        let mut i: usize = 0;
        while i < versions.len()
            invariant
                i <= versions.len(),
                keys == strings_model(versions@),
                cache.wf(),
                forall|k: Seq<char>| #[trigger] cache.view().contains_key(k) <==> keys.subrange(0, i as int).contains(k),
                forall|k: Seq<char>| #[trigger] cache.view().contains_key(k) ==> cache.view()[k] == (SlotModel { snapshot: None, in_flight: true }),
                forall|k: Seq<char>| #[trigger] strings_model(fetches@).contains(k) <==> cache.view().contains_key(k),
                strings_model(fetches@).no_duplicates(),
                strings_model(fetches@) == distinct_keys(keys.subrange(0, i as int)),
                i > 0 ==> fetches@.len() > 0 && fetches@[0]@ == versions@[0]@,
            decreases versions.len() - i,
        {
            let ghost before = cache.view();
            let ghost fs = strings_model(fetches@);
            let ghost k = versions@[i as int]@;
            assert(forall|q: Seq<char>| #[trigger] fs.contains(q) <==> before.contains_key(q));
            proof {
                if i == 0 {
                    assert(!keys.subrange(0, 0).contains(k));
                    if fetches@.len() > 0 {
                        assert(fs[0] == fetches@[0]@);
                        assert(fs.contains(fs[0]));
                        assert(keys.subrange(0, 0).contains(fs[0]));
                    }
                }
            }
            let started = cache.begin(&versions[i]);
            assert(keys.subrange(0, i + 1) == keys.subrange(0, i as int).push(k));
            assert(keys.subrange(0, i + 1).drop_last() == keys.subrange(0, i as int));
            assert(keys.subrange(0, i + 1).last() == k);
            proof {
                lemma_distinct_keys_contains(keys.subrange(0, i as int), k);
            }
            if started {
                fetches.push(versions[i].clone());
                assert(strings_model(fetches@) == fs.push(k));
                assert(!fs.contains(k));
                assert forall|q: Seq<char>| #[trigger] strings_model(fetches@).contains(q) <==> cache.view().contains_key(q) by {
                    let ns = strings_model(fetches@);
                    if q == k {
                        assert(ns[fs.len() as int] == q);
                    } else {
                        assert(cache.view().contains_key(q) == before.contains_key(q));
                        assert(before.contains_key(q) == fs.contains(q));
                        if ns.contains(q) {
                            let j = choose|j: int| 0 <= j < ns.len() && #[trigger] ns[j] == q;
                            assert(j < fs.len());
                            assert(fs[j] == q);
                        }
                        if fs.contains(q) {
                            let j = choose|j: int| 0 <= j < fs.len() && #[trigger] fs[j] == q;
                            assert(ns[j] == q);
                        }
                    }
                };
                assert forall|a: int, b: int| 0 <= a < b < strings_model(fetches@).len() implies
                    strings_model(fetches@)[a] != strings_model(fetches@)[b] by {
                    if b == fs.len() {
                        assert(fs[a] == strings_model(fetches@)[a]);
                    }
                };
            } else {
                assert(cache.view() == before);
            }
            assert forall|q: Seq<char>| #[trigger] cache.view().contains_key(q) <==> keys.subrange(0, i + 1).contains(q) by {
                if q == k {
                    assert(keys.subrange(0, i + 1)[i as int] == k);
                } else if keys.subrange(0, i + 1).contains(q) {
                    let ks = keys.subrange(0, i + 1);
                    let j = choose|j: int| 0 <= j < ks.len() && #[trigger] ks[j] == q;
                    assert(keys.subrange(0, i as int)[j] == q);
                }
            };
            i = i + 1;
        }
        assert(keys.subrange(0, versions@.len() as int) == keys);
        assert(cache.view() =~= startup_cache(keys));
        let s = Session {
            versions,
            selected: 0,
            active,
            mode: Mode::Browsing,
            cache,
            candidates: Vec::new(),
            candidate: 0,
            query: Vec::new(),
            notice: None,
        };
        assert(strings_model(s.candidates@) =~= Seq::empty());
        assert(s.query@ =~= Seq::empty());
        (s, fetches)
    }
}


/// The first position of `k` in `versions`, if it occurs.
fn position(versions: &Vec<String>, k: &String) -> (r: Option<usize>)
    ensures
        match r {
            Some(i) => first_at(strings_model(versions@), k@, i as int),
            None => !strings_model(versions@).contains(k@),
        },
{
    let ghost keys = strings_model(versions@);
    let mut i: usize = 0;
    while i < versions.len()
        invariant
            i <= versions.len(),
            keys == strings_model(versions@),
            forall|j: int| 0 <= j < i ==> keys[j] != k@,
        decreases versions.len() - i,
    {
        if versions[i] == *k {
            return Some(i);
        }
        i = i + 1;
    }
    proof {
        if keys.contains(k@) {
            let j = choose|j: int| 0 <= j < keys.len() && #[trigger] keys[j] == k@;
            assert(keys[j] != k@);
        }
    }
    None
}

proof fn lemma_first_unique(keys: Seq<Seq<char>>, k: Seq<char>, i: int)
    requires
        first_at(keys, k, i),
    ensures
        keys.contains(k),
        (choose|j: int| first_at(keys, k, j)) == i,
{
    assert(keys[i] == k);
    let c = choose|j: int| first_at(keys, k, j);
    assert(first_at(keys, k, c));
    if c < i {
        assert(keys[c] != k);
    } else if c > i {
        assert(keys[i] != k);
    }
}

fn copy_chars(v: &Vec<char>) -> (r: Vec<char>)
    ensures
        r@ == v@,
{
    let mut r: Vec<char> = Vec::new();
    let mut i: usize = 0;
    while i < v.len()
        invariant
            i <= v.len(),
            r@ == v@.subrange(0, i as int),
        decreases v.len() - i,
    {
        r.push(v[i]);
        i = i + 1;
    }
    assert(r@ =~= v@);
    r
}

impl Session {
    /// Moves the selection to `i`, requesting its population when the key
    /// has no snapshot and none is under way.
    fn navigate(&mut self, i: usize) -> (r: Command)
        requires
            old(self).wf(),
            i < old(self).versions.len(),
        ensures
            final(self).wf(),
            (final(self)@, r@) == navigate_model(old(self)@, i as int),
    {
        let k = self.versions[i].clone();
        self.selected = i;
        if self.cache.get(&k).is_none() && !self.cache.is_pending(&k) {
            self.cache.begin(&k);
            Command::Fetch(k)
        } else {
            Command::Nothing
        }
    }

    /// Moves the selection one version down, where there is one.
    pub fn select_next(&mut self) -> (r: Command)
        requires
            old(self).wf(),
        ensures
            final(self).wf(),
            (final(self)@, r@) == next_model(old(self)@),
    {
        if self.selected < self.versions.len() && self.selected + 1 < self.versions.len() {
            self.navigate(self.selected + 1)
        } else {
            Command::Nothing
        }
    }

    /// Moves the selection one version up, where there is one.
    pub fn select_previous(&mut self) -> (r: Command)
        requires
            old(self).wf(),
        ensures
            final(self).wf(),
            (final(self)@, r@) == previous_model(old(self)@),
    {
        if 0 < self.selected && self.selected < self.versions.len() {
            self.navigate(self.selected - 1)
        } else {
            Command::Nothing
        }
    }

    /// Takes in the version that the version manager reports as active.
    pub fn on_poll(&mut self, polled: String) -> (r: Command)
        requires
            old(self).wf(),
        ensures
            final(self).wf(),
            (final(self)@, r@) == poll_model(old(self)@, polled@),
    {
        if polled == self.active {
            return Command::Nothing;
        }
        match position(&self.versions, &polled) {
            Some(i) => {
                proof {
                    lemma_first_unique(self@.keys, polled@, i as int);
                }
                self.selected = i;
                self.active = polled.clone();
                if self.cache.begin(&polled) {
                    Command::Fetch(polled)
                } else {
                    Command::Nothing
                }
            },
            None => {
                self.active = polled;
                Command::Nothing
            },
        }
    }

    /// Records the outcome of a population of `key`: the package list, or
    /// the failure with its detail.
    pub fn on_fetched(&mut self, key: String, outcome: Result<Vec<PackageEntry>, String>)
        requires
            old(self).wf(),
        ensures
            final(self).wf(),
            final(self)@ == (SessionModel {
                cache: finish_model(old(self)@.cache, key@, fetch_model(outcome)),
                ..old(self)@
            }),
    {
        let snapshot = PackageSnapshot::from_fetch(outcome);
        self.cache.finish(&key, snapshot);
    }

    /// Records the candidates of a remote search, or its failure.
    pub fn on_search_results(&mut self, outcome: Result<Vec<String>, String>)
        requires
            old(self).wf(),
        ensures
            final(self).wf(),
            match outcome {
                Ok(v) => final(self)@ == (SessionModel {
                    candidates: strings_model(v@),
                    candidate: 0,
                    ..old(self)@
                }),
                Err(d) => final(self)@ == (SessionModel {
                    candidates: Seq::empty(),
                    candidate: 0,
                    notice: Some(NoticeModel::SearchFailed(d@)),
                    ..old(self)@
                }),
            },
    {
        match outcome {
            Ok(v) => {
                self.candidates = v;
                self.candidate = 0;
            },
            Err(d) => {
                self.candidates = Vec::new();
                self.candidate = 0;
                self.notice = Some(Notice::SearchFailed(d));
                assert(strings_model(self.candidates@) =~= Seq::empty());
            },
        }
    }

    /// Records the outcome of a version switch. On failure the selection
    /// stays as it was and the user is told why.
    pub fn on_switch_result(&mut self, outcome: Result<(), String>)
        requires
            old(self).wf(),
        ensures
            final(self).wf(),
            match outcome {
                Ok(_) => final(self)@ == old(self)@,
                Err(d) => final(self)@ == (SessionModel {
                    notice: Some(NoticeModel::SwitchFailed(d@)),
                    ..old(self)@
                }),
            },
    {
        match outcome {
            Ok(_) => {},
            Err(d) => {
                self.notice = Some(Notice::SwitchFailed(d));
            },
        }
    }

    /// Records the outcome of installing package `name`.
    pub fn on_install_result(&mut self, name: String, outcome: Result<(), String>)
        requires
            old(self).wf(),
        ensures
            final(self).wf(),
            match outcome {
                Ok(_) => final(self)@ == (SessionModel {
                    notice: Some(NoticeModel::Installed(name@)),
                    ..old(self)@
                }),
                Err(d) => final(self)@ == (SessionModel {
                    notice: Some(NoticeModel::InstallFailed(name@, d@)),
                    ..old(self)@
                }),
            },
    {
        match outcome {
            Ok(_) => {
                self.notice = Some(Notice::Installed(name));
            },
            Err(d) => {
                self.notice = Some(Notice::InstallFailed(name, d));
            },
        }
    }

    /// The snapshot stored for the selected version, if any.
    pub fn shown(&self) -> (r: Option<&PackageSnapshot>)
        requires
            self.wf(),
        ensures
            snapshot_opt_model(r) == shown_model(self@),
    {
        if self.selected < self.versions.len() {
            self.cache.get(&self.versions[self.selected])
        } else {
            None
        }
    }

    /// What the package panel shows: loading, empty, failed or a list.
    pub fn panel(&self) -> (r: PanelState)
        requires
            self.wf(),
        ensures
            r == panel_model(shown_model(self@)),
    {
        panel_state(self.shown())
    }
}


impl Session {
    fn key_browsing(&mut self, key: KeyInput) -> (r: Command)
        requires
            old(self).wf(),
            old(self)@.mode == Mode::Browsing,
            old(self)@.notice is None,
        ensures
            final(self).wf(),
            (final(self)@, r@) == key_model(old(self)@, key),
    {
        let ghost m = self@;
        assert(SessionModel { notice: None, ..m } == m);
        if key == KeyInput::Down || key == KeyInput::Char('j') {
            self.select_next()
        } else if key == KeyInput::Up || key == KeyInput::Char('k') {
            self.select_previous()
        } else if key == KeyInput::Enter {
            self.mode = Mode::ConfirmingAction;
            Command::Nothing
        } else if key == KeyInput::Char('q') {
            Command::Quit
        } else {
            Command::Nothing
        }
    }

    fn key_confirming(&mut self, key: KeyInput) -> (r: Command)
        requires
            old(self).wf(),
            old(self)@.mode == Mode::ConfirmingAction,
            old(self)@.notice is None,
        ensures
            final(self).wf(),
            (final(self)@, r@) == key_model(old(self)@, key),
    {
        let ghost m = self@;
        assert(SessionModel { notice: None, ..m } == m);
        if key == KeyInput::Char('1') {
            self.mode = Mode::Browsing;
            if self.selected < self.versions.len() {
                Command::Switch(self.versions[self.selected].clone())
            } else {
                Command::Nothing
            }
        } else if key == KeyInput::Char('2') {
            self.mode = Mode::ListingRemote;
            self.candidates = Vec::new();
            self.candidate = 0;
            assert(strings_model(self.candidates@) =~= Seq::empty());
            Command::Search(Vec::new())
        } else if key == KeyInput::Escape || key == KeyInput::Char('q') {
            self.mode = Mode::Browsing;
            Command::Nothing
        } else {
            Command::Nothing
        }
    }

    fn key_listing(&mut self, key: KeyInput) -> (r: Command)
        requires
            old(self).wf(),
            old(self)@.mode == Mode::ListingRemote,
            old(self)@.notice is None,
        ensures
            final(self).wf(),
            (final(self)@, r@) == key_model(old(self)@, key),
    {
        let ghost m = self@;
        assert(SessionModel { notice: None, ..m } == m);
        if key == KeyInput::Down || key == KeyInput::Char('j') {
            if self.candidate < self.candidates.len() && self.candidate + 1 < self.candidates.len() {
                self.candidate = self.candidate + 1;
            }
            Command::Nothing
        } else if key == KeyInput::Up || key == KeyInput::Char('k') {
            if self.candidate > 0 {
                self.candidate = self.candidate - 1;
            }
            Command::Nothing
        } else if key == KeyInput::Enter {
            if self.candidate < self.candidates.len() {
                self.mode = Mode::Browsing;
                Command::Install(self.candidates[self.candidate].clone())
            } else {
                Command::Nothing
            }
        } else if key == KeyInput::Char('s') {
            Command::Search(Vec::new())
        } else if key == KeyInput::Char('a') {
            self.mode = Mode::QueryingRemote;
            self.query = Vec::new();
            Command::Nothing
        } else if key == KeyInput::Escape || key == KeyInput::Char('q') {
            self.mode = Mode::Browsing;
            Command::Nothing
        } else {
            Command::Nothing
        }
    }

    fn key_querying(&mut self, key: KeyInput) -> (r: Command)
        requires
            old(self).wf(),
            old(self)@.mode == Mode::QueryingRemote,
            old(self)@.notice is None,
        ensures
            final(self).wf(),
            (final(self)@, r@) == key_model(old(self)@, key),
    {
        let ghost m = self@;
        assert(SessionModel { notice: None, ..m } == m);
        match key {
            KeyInput::Char(c) => {
                self.query.push(c);
                Command::Search(copy_chars(&self.query))
            },
            KeyInput::Backspace => {
                self.query.pop();
                Command::Search(copy_chars(&self.query))
            },
            KeyInput::Enter | KeyInput::Escape => {
                self.mode = Mode::ListingRemote;
                Command::Nothing
            },
            _ => Command::Nothing,
        }
    }

    /// Handles one key press in the view the user is in.
    pub fn on_key(&mut self, key: KeyInput) -> (r: Command)
        requires
            old(self).wf(),
        ensures
            final(self).wf(),
            (final(self)@, r@) == key_model(old(self)@, key),
    {
        let ghost m = self@;
        self.notice = None;
        let ghost m0 = self@;
        assert(m0 == SessionModel { notice: None, ..m });
        assert(key_model(m0, key) == key_model(m, key));
        match self.mode {
            Mode::Browsing => self.key_browsing(key),
            Mode::ConfirmingAction => self.key_confirming(key),
            Mode::ListingRemote => self.key_listing(key),
            Mode::QueryingRemote => self.key_querying(key),
        }
    }

    /// The known version keys, in order.
    pub fn versions(&self) -> (r: &Vec<String>)
        ensures
            strings_model(r@) == self@.keys,
    {
        &self.versions
    }

    /// The index of the selected version.
    pub fn selected(&self) -> (r: usize)
        ensures
            r as int == self@.selected,
    {
        self.selected
    }

    /// The version last reported as active.
    pub fn active(&self) -> (r: &String)
        ensures
            r@ == self@.active,
    {
        &self.active
    }

    /// The view the user is in.
    pub fn mode(&self) -> (r: Mode)
        ensures
            r == self@.mode,
    {
        self.mode
    }

    /// The candidates of the last remote search.
    pub fn candidates(&self) -> (r: &Vec<String>)
        ensures
            strings_model(r@) == self@.candidates,
    {
        &self.candidates
    }

    /// The index of the highlighted candidate.
    pub fn candidate(&self) -> (r: usize)
        ensures
            r as int == self@.candidate,
    {
        self.candidate
    }

    /// The search text typed so far.
    pub fn query(&self) -> (r: &Vec<char>)
        ensures
            r@ == self@.query,
    {
        &self.query
    }

    /// The message for the user, if any.
    pub fn notice(&self) -> (r: Option<&Notice>)
        ensures
            match r {
                Some(n) => self@.notice == Some(n@),
                None => self@.notice is None,
            },
    {
        match &self.notice {
            Some(n) => Some(n),
            None => None,
        }
    }

    /// The cache of package snapshots.
    pub fn cache(&self) -> (r: &VersionCache)
        ensures
            r.view() == self@.cache,
            self.wf() ==> r.wf(),
    {
        &self.cache
    }
}


/// Moving the selection onto a version whose population has not completed
/// shows the loading placeholder: neither an error nor the packages of the
/// version selected before.
pub proof fn lemma_navigation_shows_loading(m: SessionModel)
    requires
        model_valid(m),
        m.selected + 1 < m.keys.len(),
        stored(m.cache, m.keys[m.selected + 1]) is None,
    ensures
        panel_model(shown_model(next_model(m).0)) == PanelState::Loading,
{
}

/// A change of the active version to a known key whose last population
/// failed selects that key and requests a new population of it.
pub proof fn lemma_poll_refetches_after_failure(m: SessionModel, k: Seq<char>, d: Seq<char>)
    requires
        m.keys.contains(k),
        k != m.active,
    ensures
        ({
            let after = SessionModel {
                cache: finish_model(m.cache, k, SnapshotModel::Failed(d)),
                ..m
            };
            let (m2, c) = poll_model(after, k);
            &&& c == CommandModel::Fetch(k)
            &&& m2.active == k
            &&& m2.keys[m2.selected] == k
            &&& pending(m2.cache, k)
        }),
{
    let j = choose|j: int| 0 <= j < m.keys.len() && m.keys[j] == k;
    assert(exists|i: int| first_at(m.keys, k, i)) by {
        lemma_first_exists(m.keys, k, j);
    };
}

proof fn lemma_first_exists(keys: Seq<Seq<char>>, k: Seq<char>, j: int)
    requires
        0 <= j < keys.len(),
        keys[j] == k,
    ensures
        exists|i: int| first_at(keys, k, i),
    decreases j,
{
    if exists|i: int| 0 <= i < j && keys[i] == k {
        let i = choose|i: int| 0 <= i < j && keys[i] == k;
        lemma_first_exists(keys, k, i);
    } else {
        assert(first_at(keys, k, j));
    }
}

} // verus!
