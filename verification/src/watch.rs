//! The watch loop: which runs start and stop as files change, which file
//! changes count, and which directories are watched. The loop's decisions
//! are a state machine; the caller performs each action and reports each
//! event.
use vstd::prelude::*;

use crate::command::RunResult;
use crate::path::{
    components, has_root, lemma_normal_form_is_same_path, normal_form, parent_key, parent_normal_form,
    path_key,
};
use crate::text::{opt_view, strs};
use crate::unique::{first_occurrences, keep_first, lemma_first_occurrences_keys};
use watchexec::WatchedPath;

verus! {

broadcast use vstd::seq_lib::group_seq_properties;

/// What the watch loop hears about.
#[derive(PartialEq, Eq, Structural, Clone, Copy, Debug)]
pub enum Event {
    /// A watched file changed.
    Trigger,
    /// A signal asked the tool to stop, or the file watcher's channel
    /// closed.
    Quit,
    /// The file watcher stopped, with or without an error.
    WatcherEnded { ok: bool },
    /// The running cycle ended: with its result, or none where it failed.
    RunEnded(Option<RunResult>),
}

/// What the watch loop does in answer to an event.
#[derive(PartialEq, Eq, Structural, Clone, Copy, Debug)]
pub enum WatchAction {
    /// Nothing.
    Nothing,
    /// Cancel the running cycle.
    CancelRun,
    /// Stop watching, after cancelling the running cycle and waiting for it
    /// where one runs.
    Stop { cancel_run: bool },
    /// Stop with the error of the watcher or of the cycle.
    Fail,
}

/// The state of the watch loop.
#[derive(PartialEq, Eq, Structural, Clone, Copy, Debug)]
pub struct Supervisor {
    /// Whether a change restarts a running cycle at once (`--refresh`).
    pub refresh: bool,
    /// Whether a cycle runs.
    pub active: bool,
    /// Whether a cycle is owed: it starts as soon as none runs.
    pub pending: bool,
    /// Whether the loop has ended.
    pub stopped: bool,
}

/// The loop before anything happened: a first cycle is owed unless
/// `--postpone`.
pub open spec fn initial(postpone: bool, refresh: bool) -> Supervisor {
    Supervisor { refresh, active: false, pending: !postpone, stopped: false }
}

/// Whether a cycle starts now: the loop goes on, none runs and one is owed;
/// and the state after that.
pub open spec fn spawn_of(s: Supervisor) -> (Supervisor, bool) {
    if !s.stopped && !s.active && s.pending {
        (Supervisor { active: true, pending: false, ..s }, true)
    } else {
        (s, false)
    }
}

/// The answer to an event. A change makes a cycle owed, and with
/// `--refresh` cancels the running one. A stop request, or the watcher
/// ending without error, stops the loop, cancelling the running cycle. The
/// watcher's error, or a failed cycle, fails the loop. A cycle that ends
/// leaves none running; one cancelled under `--refresh` is owed again.
/// Once stopped, nothing happens; a cycle's end where none runs is ignored.
pub open spec fn step_of(s: Supervisor, e: Event) -> (Supervisor, WatchAction) {
    if s.stopped {
        (s, WatchAction::Nothing)
    } else {
        match e {
            Event::Trigger => (
                Supervisor { pending: true, ..s },
                if s.refresh && s.active {
                    WatchAction::CancelRun
                } else {
                    WatchAction::Nothing
                },
            ),
            Event::Quit => (
                Supervisor { stopped: true, ..s },
                WatchAction::Stop { cancel_run: s.active },
            ),
            Event::WatcherEnded { ok } => if ok {
                (Supervisor { stopped: true, ..s }, WatchAction::Stop { cancel_run: s.active })
            } else {
                (Supervisor { stopped: true, ..s }, WatchAction::Fail)
            },
            Event::RunEnded(r) => if !s.active {
                (s, WatchAction::Nothing)
            } else {
                match r {
                    Some(res) => (
                        Supervisor {
                            active: false,
                            pending: s.pending || (res == RunResult::Cancelled && s.refresh),
                            ..s
                        },
                        WatchAction::Nothing,
                    ),
                    None => (Supervisor { active: false, stopped: true, ..s }, WatchAction::Fail),
                }
            },
        }
    }
}

impl Supervisor {
    /// The loop before anything happened.
    pub fn new(postpone: bool, refresh: bool) -> (s: Supervisor)
        ensures
            s == initial(postpone, refresh),
    {
        Supervisor { refresh, active: false, pending: !postpone, stopped: false }
    }

    /// Whether a cycle starts now; it is then running and no longer owed.
    pub fn take_spawn(&mut self) -> (b: bool)
        ensures
            (*final(self), b) == spawn_of(*old(self)),
    {
        if !self.stopped && !self.active && self.pending {
            self.active = true;
            self.pending = false;
            true
        } else {
            false
        }
    }

    /// The answer to an event.
    pub fn on_event(&mut self, e: Event) -> (a: WatchAction)
        ensures
            (*final(self), a) == step_of(*old(self), e),
    {
        if self.stopped {
            return WatchAction::Nothing;
        }
        match e {
            Event::Trigger => {
                self.pending = true;
                if self.refresh && self.active {
                    WatchAction::CancelRun
                } else {
                    WatchAction::Nothing
                }
            },
            Event::Quit => {
                self.stopped = true;
                WatchAction::Stop { cancel_run: self.active }
            },
            Event::WatcherEnded { ok } => {
                self.stopped = true;
                if ok {
                    WatchAction::Stop { cancel_run: self.active }
                } else {
                    WatchAction::Fail
                }
            },
            Event::RunEnded(r) => {
                if !self.active {
                    return WatchAction::Nothing;
                }
                match r {
                    Some(res) => {
                        self.active = false;
                        self.pending = self.pending || (res == RunResult::Cancelled
                            && self.refresh);
                        WatchAction::Nothing
                    },
                    None => {
                        self.active = false;
                        self.stopped = true;
                        WatchAction::Fail
                    },
                }
            },
        }
    }
}

/// A cycle starts only where none runs, and only while the loop goes on:
/// never two at a time.
pub proof fn lemma_one_cycle_at_a_time(s: Supervisor)
    ensures
        spawn_of(s).1 ==> !s.active && !s.stopped && spawn_of(s).0.active,
        s.active ==> !spawn_of(s).1,
{
}

/// With `--postpone`, no cycle starts before the first change; the first
/// change makes one start.
pub proof fn lemma_postpone_waits_for_change(refresh: bool)
    ensures
        !spawn_of(initial(true, refresh)).1,
        spawn_of(step_of(initial(true, refresh), Event::Trigger).0).1,
        spawn_of(initial(false, refresh)).1,
{
}

/// With `--refresh`, a change during a cycle cancels it, and once it has
/// ended as cancelled a new cycle starts.
pub proof fn lemma_refresh_restarts(s: Supervisor)
    requires
        s.refresh,
        s.active,
        !s.stopped,
    ensures
        step_of(s, Event::Trigger).1 == WatchAction::CancelRun,
        spawn_of(
            step_of(step_of(s, Event::Trigger).0, Event::RunEnded(Some(RunResult::Cancelled))).0,
        ).1,
{
}

/// Without `--refresh`, a change never cancels a cycle: the running one
/// goes on, and however many changes come, one cycle follows it once it has
/// ended.
pub proof fn lemma_change_queues_one_rerun(s: Supervisor, r: RunResult)
    requires
        !s.refresh,
        s.active,
        !s.stopped,
    ensures
        step_of(s, Event::Trigger).1 == WatchAction::Nothing,
        step_of(step_of(s, Event::Trigger).0, Event::Trigger) == step_of(s, Event::Trigger),
        spawn_of(step_of(step_of(s, Event::Trigger).0, Event::RunEnded(Some(r))).0).1,
        !spawn_of(
            spawn_of(step_of(step_of(s, Event::Trigger).0, Event::RunEnded(Some(r))).0).0,
        ).1,
{
}

/// A stop request ends the loop, cancelling the running cycle exactly where
/// one runs; after it nothing starts.
pub proof fn lemma_quit_stops(s: Supervisor, e: Event)
    requires
        !s.stopped,
    ensures
        step_of(s, Event::Quit).1 == (WatchAction::Stop { cancel_run: s.active }),
        !spawn_of(step_of(s, Event::Quit).0).1,
        step_of(step_of(s, Event::Quit).0, e).1 == WatchAction::Nothing,
{
}

/// Whether an event owes a new cycle: a change, or, under `--refresh`, a
/// cycle that ended cancelled.
pub open spec fn owes_cycle(e: Event, refresh: bool) -> bool {
    e == Event::Trigger || (refresh && e == Event::RunEnded(Some(RunResult::Cancelled)))
}

/// A cycle is owed only through a change (or, under `--refresh`, a cycle
/// that ended cancelled), and a start settles what is owed: starting takes
/// an owed cycle and leaves none owed.
pub proof fn lemma_owed_only_by_change(s: Supervisor, e: Event)
    ensures
        !s.pending && step_of(s, e).0.pending ==> owes_cycle(e, s.refresh),
        spawn_of(s).1 ==> s.pending && !spawn_of(s).0.pending,
        step_of(s, e).0.refresh == s.refresh,
        spawn_of(s).0.refresh == s.refresh,
{
}

/// The state of the loop before step `i` of a run over `events`, as the
/// caller drives it: at each step a cycle starts where one is owed, then the
/// step's event is answered.
pub open spec fn state_at(s: Supervisor, events: Seq<Event>, i: int) -> Supervisor
    decreases i,
{
    if i <= 0 {
        s
    } else {
        step_of(spawn_of(state_at(s, events, i - 1)).0, events[i - 1]).0
    }
}

/// Whether a cycle starts at step `i`, before its event is answered.
pub open spec fn started_at(s: Supervisor, events: Seq<Event>, i: int) -> bool {
    spawn_of(state_at(s, events, i)).1
}

/// The loop's answer to the event of step `i`.
pub open spec fn action_at(s: Supervisor, events: Seq<Event>, i: int) -> WatchAction {
    step_of(spawn_of(state_at(s, events, i)).0, events[i]).1
}

/// No cycle starts at any step strictly between `a` and `b`.
pub open spec fn no_start_between(s: Supervisor, events: Seq<Event>, a: int, b: int) -> bool {
    forall|l: int| a < l < b ==> !#[trigger] started_at(s, events, l)
}

/// A change arrived before step `i` and after the last start before it.
pub open spec fn change_since_start(s: Supervisor, events: Seq<Event>, i: int) -> bool {
    exists|j: int|
        0 <= j < i && events[j] == Event::Trigger && #[trigger] no_start_between(s, events, j, i)
}

/// A cycle is reported as ended cancelled only where the loop asked to
/// cancel it: the loop answered an earlier event with a cancel, and no cycle
/// started after that answer up to the report.
pub open spec fn cancels_reported_honestly(s: Supervisor, events: Seq<Event>) -> bool {
    forall|m: int|
        0 <= m < events.len() && #[trigger] events[m] == Event::RunEnded(
            Some(RunResult::Cancelled),
        ) ==> exists|k: int|
            0 <= k < m && action_at(s, events, k) == WatchAction::CancelRun
                && #[trigger] no_start_between(s, events, k, m + 1)
}

/// One step of the loop keeps the `--refresh` setting, owes a cycle only
/// where one was owed and none started, or the event is a change or a
/// cancelled cycle's end, and cancels only in answer to a change.
proof fn lemma_step_owes(st: Supervisor, e: Event)
    ensures
        step_of(spawn_of(st).0, e).0.refresh == st.refresh,
        step_of(spawn_of(st).0, e).0.pending ==> (st.pending && !spawn_of(st).1) || e
            == Event::Trigger || e == Event::RunEnded(Some(RunResult::Cancelled)),
        step_of(spawn_of(st).0, e).1 == WatchAction::CancelRun ==> e == Event::Trigger,
        spawn_of(st).1 ==> st.pending && !st.active,
{
}

/// A cycle is owed before step `i` only at startup without `--postpone`,
/// before any cycle started, or after a change that arrived since the last
/// start.
proof fn lemma_owed_follows_change(postpone: bool, refresh: bool, events: Seq<Event>, i: int)
    requires
        cancels_reported_honestly(initial(postpone, refresh), events),
        0 <= i <= events.len(),
    ensures
        state_at(initial(postpone, refresh), events, i).refresh == refresh,
        state_at(initial(postpone, refresh), events, i).pending ==> (!postpone
            && no_start_between(initial(postpone, refresh), events, -1, i)) || change_since_start(
            initial(postpone, refresh),
            events,
            i,
        ),
    decreases i,
{
    let s0 = initial(postpone, refresh);
    if i > 0 {
        let p = i - 1;
        lemma_owed_follows_change(postpone, refresh, events, p);
        let st = state_at(s0, events, p);
        let e = events[p];
        lemma_step_owes(st, e);
        let st2 = state_at(s0, events, i);
        assert(st2 == step_of(spawn_of(st).0, e).0);
        if st2.pending {
            if st.pending && !started_at(s0, events, p) {
                if !postpone && no_start_between(s0, events, -1, p) {
                    assert(no_start_between(s0, events, -1, i));
                } else {
                    let j = choose|j: int|
                        0 <= j < p && events[j] == Event::Trigger && #[trigger] no_start_between(
                            s0,
                            events,
                            j,
                            p,
                        );
                    assert(no_start_between(s0, events, j, i));
                }
            } else if e == Event::Trigger {
                assert(no_start_between(s0, events, p, i));
            } else {
                assert(events[p] == Event::RunEnded(Some(RunResult::Cancelled)));
                let k = choose|k: int|
                    0 <= k < p && action_at(s0, events, k) == WatchAction::CancelRun
                        && #[trigger] no_start_between(s0, events, k, p + 1);
                lemma_step_owes(state_at(s0, events, k), events[k]);
                assert(events[k] == Event::Trigger);
                assert(no_start_between(s0, events, k, i));
            }
        }
    }
}

/// A cycle starts only where none runs, and only where it is owed: at
/// startup without `--postpone`, before any other cycle, or after a change
/// that arrived since the last start. This holds of every run of the loop in
/// which a cycle is reported as ended cancelled only after the loop asked to
/// cancel it.
pub proof fn lemma_starts_follow_changes(postpone: bool, refresh: bool, events: Seq<Event>)
    requires
        cancels_reported_honestly(initial(postpone, refresh), events),
    ensures
        forall|i: int|
            0 <= i <= events.len() && #[trigger] started_at(initial(postpone, refresh), events, i)
                ==> !state_at(initial(postpone, refresh), events, i).active && ((!postpone
                && no_start_between(initial(postpone, refresh), events, -1, i))
                || change_since_start(initial(postpone, refresh), events, i)),
{
    assert forall|i: int|
        0 <= i <= events.len() && #[trigger] started_at(initial(postpone, refresh), events, i)
            implies !state_at(initial(postpone, refresh), events, i).active && ((!postpone
            && no_start_between(initial(postpone, refresh), events, -1, i)) || change_since_start(
            initial(postpone, refresh),
            events,
            i,
        )) by {
        lemma_owed_follows_change(postpone, refresh, events, i);
    }
}

/// Metadata that tells whether a file changed.
#[derive(PartialEq, Eq, Structural, Clone, Copy, Debug)]
pub struct FileStat {
    pub mtime: i64,
    pub size: u64,
    pub ino: u64,
    pub mode: u32,
    pub uid: u32,
    pub gid: u32,
}

/// The metadata kept of a file, from what its metadata call returned
/// (modification time, size, inode, mode, owner, group), none where the
/// call failed.
pub fn file_stat(meta: Option<(i64, u64, u64, u32, u32, u32)>) -> (s: Option<FileStat>)
    ensures
        s == match meta {
            Some((mtime, size, ino, mode, uid, gid)) => Some(
                FileStat { mtime, size, ino, mode, uid, gid },
            ),
            None => None,
        },
{
    match meta {
        Some((mtime, size, ino, mode, uid, gid)) => Some(
            FileStat { mtime, size, ino, mode, uid, gid },
        ),
        None => None,
    }
}

/// Whether two recorded metadata are equal.
fn same_stat(a: &Option<FileStat>, b: &Option<FileStat>) -> (r: bool)
    ensures
        r == (*a == *b),
{
    match (a, b) {
        (None, None) => true,
        (Some(x), Some(y)) => *x == *y,
        _ => false,
    }
}

/// The last metadata seen of each watched path, by the path's normal form.
pub struct Snapshots {
    keys: Vec<String>,
    stats: Vec<Option<FileStat>>,
}

/// The map from normal forms to metadata that parallel key and metadata
/// sequences hold.
pub open spec fn snapshot_map(keys: Seq<Seq<char>>, stats: Seq<Option<FileStat>>) -> Map<
    Seq<char>,
    Option<FileStat>,
> {
    Map::new(|k: Seq<char>| keys.contains(k), |k: Seq<char>| stats[keys.index_of(k)])
}

impl Snapshots {
    #[verifier::type_invariant]
    spec fn wf(&self) -> bool {
        &&& self.keys@.len() == self.stats@.len()
        &&& strs(self.keys@).no_duplicates()
    }

    /// The last metadata seen of each path, by normal form.
    pub closed spec fn view_map(&self) -> Map<Seq<char>, Option<FileStat>> {
        snapshot_map(strs(self.keys@), self.stats@)
    }

    /// No metadata seen yet.
    pub fn new() -> (s: Snapshots)
        ensures
            s.view_map() == Map::<Seq<char>, Option<FileStat>>::empty(),
    {
        let s = Snapshots { keys: Vec::new(), stats: Vec::new() };
        assert(s.view_map() =~= Map::<Seq<char>, Option<FileStat>>::empty());
        s
    }

    /// Records `stat` as the metadata of the path with normal form `key`,
    /// and returns what was recorded for it before (`HashMap::insert`).
    fn record(&mut self, key: String, stat: Option<FileStat>) -> (prev: Option<Option<FileStat>>)
        ensures
            final(self).view_map() == old(self).view_map().insert(key@, stat),
            prev == (if old(self).view_map().dom().contains(key@) {
                Some(old(self).view_map()[key@])
            } else {
                None
            }),
    {
        proof {
            use_type_invariant(&*self);
        }
        let ghost ks = strs(self.keys@);
        let ghost st = self.stats@;
        let mut i: usize = 0;
        while i < self.keys.len()
            invariant
                0 <= i <= self.keys@.len(),
                self.keys@ == old(self).keys@,
                self.stats@ == old(self).stats@,
                ks == strs(self.keys@),
                st == self.stats@,
                self.keys@.len() == self.stats@.len(),
                ks.no_duplicates(),
                forall|j: int| 0 <= j < i ==> ks[j] != key@,
            decreases self.keys@.len() - i,
        {
            if self.keys[i] == key {
                assert(ks[i as int] == key@);
                let prev = self.stats[i];
                let mut whole = Snapshots { keys: Vec::new(), stats: Vec::new() };
                std::mem::swap(&mut whole, self);
                let Snapshots { keys, mut stats } = whole;
                stats.set(i, stat);
                let ghost new_st = stats@;
                *self = Snapshots { keys, stats };
                proof {
                    assert(ks.contains(key@));
                    assert(ks.index_of(key@) == i) by {
                        let j = ks.index_of(key@);
                        assert(ks[j] == ks[i as int]);
                    }
                    assert forall|k: Seq<char>| ks.contains(k) && k != key@ implies #[trigger] new_st[ks.index_of(k)] == st[ks.index_of(k)] by {
                        assert(ks[ks.index_of(k)] == k);
                    }
                    assert(self.view_map() =~= snapshot_map(ks, st).insert(key@, stat));
                }
                return Some(prev);
            }
            i += 1;
        }
        proof {
            assert(!ks.contains(key@));
        }
        let mut whole = Snapshots { keys: Vec::new(), stats: Vec::new() };
        std::mem::swap(&mut whole, self);
        let Snapshots { mut keys, mut stats } = whole;
        keys.push(key);
        stats.push(stat);
        proof {
            let nk = strs(keys@);
            assert(nk =~= ks.push(key@));
            assert forall|a: int, b: int| 0 <= a < b < nk.len() implies nk[a] != nk[b] by {
                if b == ks.len() {
                    assert(ks[a] == nk[a]);
                    assert(ks.contains(ks[a]));
                    assert(nk[b] == key@);
                } else {
                    assert(ks[a] == nk[a] && ks[b] == nk[b]);
                }
            }
            assert(nk.contains(key@) && nk.index_of(key@) == ks.len()) by {
                assert(nk[ks.len() as int] == key@);
                let j = nk.index_of(key@);
                if j < ks.len() {
                    assert(ks[j] == key@);
                }
            }
            assert forall|k: Seq<char>| ks.contains(k) implies #[trigger] nk.index_of(k) == ks.index_of(k) by {
                let j = nk.index_of(k);
                let m = ks.index_of(k);
                assert(nk[m] == k);
                if j != m {
                    assert(nk[j] == nk[m]);
                }
            }
            assert(snapshot_map(nk, stats@) =~= snapshot_map(ks, st).insert(key@, stat)) by {
                assert forall|k: Seq<char>| nk.contains(k) <==> (ks.contains(k) || k == key@) by {
                    if nk.contains(k) && k != key@ {
                        let j = nk.index_of(k);
                        assert(ks[j] == k);
                    }
                    if ks.contains(k) {
                        assert(nk[ks.index_of(k)] == k);
                    }
                }
            }
        }
        *self = Snapshots { keys, stats };
        None
    }
}

/// Whether recording `current` for a watched path reports a change: it
/// does unless the very same metadata was recorded for that path before.
pub open spec fn changed_of(prev_map: Map<Seq<char>, Option<FileStat>>, path: Seq<char>, current: Option<FileStat>) -> bool {
    !(prev_map.dom().contains(path_key(path)) && prev_map[path_key(path)] == current)
}

/// Records the current metadata of a watched path and tells whether the
/// path changed since its metadata was last recorded.
pub fn watched_path_changed(snapshots: &mut Snapshots, watched: &str, current: Option<FileStat>) -> (changed: bool)
    ensures
        final(snapshots).view_map() == old(snapshots).view_map().insert(path_key(watched@), current),
        changed == changed_of(old(snapshots).view_map(), watched@, current),
{
    let key = normal_form(watched);
    let prev = snapshots.record(key, current);
    match prev {
        Some(p) => !same_stat(&p, &current),
        None => true,
    }
}

/// Recording the same metadata twice for a path reports no change the
/// second time; recording other metadata reports a change.
pub proof fn lemma_record_then_compare(
    m: Map<Seq<char>, Option<FileStat>>,
    path: Seq<char>,
    s: Option<FileStat>,
    t: Option<FileStat>,
)
    ensures
        !changed_of(m.insert(path_key(path), s), path, s),
        s != t ==> changed_of(m.insert(path_key(path), s), path, t),
{
}

/// Whether a watched path is the same path as `absolute`, or as its
/// canonical form where known.
pub open spec fn is_match(watched: Seq<char>, absolute: Seq<char>, canonical: Option<Seq<char>>) -> bool {
    path_key(watched) == path_key(absolute) || (canonical is Some && path_key(watched)
        == path_key(canonical->0))
}

/// The index of the first watched path that is the same path as
/// `absolute` (a changed path made absolute), or as its canonical form
/// where it could be computed.
pub fn matching_watched_path(absolute: &str, canonical: &Option<String>, watch_paths: &Vec<String>) -> (r: Option<usize>)
    ensures
        match r {
            Some(i) => i < watch_paths@.len() && is_match(watch_paths@[i as int]@, absolute@, opt_view(*canonical))
                && forall|j: int| 0 <= j < i ==> !is_match(#[trigger] watch_paths@[j]@, absolute@, opt_view(*canonical)),
            None => forall|j: int| 0 <= j < watch_paths@.len() ==> !is_match(#[trigger] watch_paths@[j]@, absolute@, opt_view(*canonical)),
        },
{
    let a = normal_form(absolute);
    let c = match canonical {
        Some(x) => Some(normal_form(x.as_str())),
        None => None,
    };
    for i in 0..watch_paths.len()
        invariant
            a@ == path_key(absolute@),
            c is Some == canonical is Some,
            c is Some ==> c->0@ == path_key(canonical->0@),
            forall|j: int| 0 <= j < i ==> !is_match(#[trigger] watch_paths@[j]@, absolute@, opt_view(*canonical)),
    {
        let k = normal_form(watch_paths[i].as_str());
        let hit = k == a || match &c {
            Some(ck) => k == *ck,
            None => false,
        };
        if hit {
            return Some(i);
        }
    }
    None
}

/// The directories to watch: the directory holding each watched path, as a
/// normal form, repeats dropped, first ones kept.
pub open spec fn parent_dirs_of(paths: Seq<Seq<char>>) -> Seq<Seq<char>> {
    let parents = paths.map_values(|p: Seq<char>| parent_key(p));
    first_occurrences(parents, parents)
}

/// The directories to watch, non-recursively, for a set of watched paths.
pub fn parent_dirs(paths: &Vec<String>) -> (dirs: Vec<String>)
    ensures
        strs(dirs@) == parent_dirs_of(strs(paths@)),
{
    let ghost all = strs(paths@).map_values(|p: Seq<char>| parent_key(p));
    let mut parents: Vec<String> = Vec::new();
    for i in 0..paths.len()
        invariant
            all == strs(paths@).map_values(|p: Seq<char>| parent_key(p)),
            strs(parents@) == all.take(i as int),
    {
        let ghost before = strs(parents@);
        let d = parent_normal_form(paths[i].as_str());
        assert(all[i as int] == d@);
        parents.push(d);
        assert(all.take(i + 1) =~= all.take(i as int).push(all[i as int]));
        assert(strs(parents@) =~= all.take(i + 1));
    }
    assert(all.take(paths.len() as int) =~= all);
    keep_first(&parents, &parents)
}

#[verifier::external_type_specification]
#[verifier::external_body]
pub struct ExWatchedPath(WatchedPath);

/// What `watchexec::WatchedPath::non_recursive` builds from the directory
/// `dir`: a watch of that directory alone, without its subdirectories.
pub uninterp spec fn non_recursive_of(dir: Seq<char>) -> WatchedPath;

/// `watchexec::WatchedPath::non_recursive`, which only stores its argument
/// as the path with the recursive flag off: the result is the same for the
/// same directory. Verus sees nothing inside a `WatchedPath`, so what it
/// holds is named, not stated.
#[verifier::external_body]
fn non_recursive_watch(dir: String) -> (w: WatchedPath)
    ensures
        w == non_recursive_of(dir@),
{
    WatchedPath::non_recursive(dir)
}

/// The watcher's path set for a set of watched paths: one non-recursive
/// watch per directory of `parent_dirs`, in that order.
pub fn watched_dirs(paths: &Vec<String>) -> (watches: Vec<WatchedPath>)
    ensures
        watches@.len() == parent_dirs_of(strs(paths@)).len(),
        forall|i: int|
            0 <= i < watches@.len() ==> #[trigger] watches@[i] == non_recursive_of(
                parent_dirs_of(strs(paths@))[i],
            ),
{
    let dirs = parent_dirs(paths);
    let mut watches: Vec<WatchedPath> = Vec::new();
    for i in 0..dirs.len()
        invariant
            watches@.len() == i,
            strs(dirs@) == parent_dirs_of(strs(paths@)),
            forall|j: int| 0 <= j < i ==> #[trigger] watches@[j] == non_recursive_of(strs(dirs@)[j]),
    {
        watches.push(non_recursive_watch(dirs[i].clone()));
    }
    watches
}

/// Every watched path's directory is watched, once.
pub proof fn lemma_parent_dirs(paths: Seq<Seq<char>>)
    ensures
        parent_dirs_of(paths).no_duplicates(),
        forall|i: int| 0 <= i < paths.len() ==> parent_dirs_of(paths).contains(parent_key(#[trigger] paths[i])),
{
    let parents = paths.map_values(|p: Seq<char>| parent_key(p));
    let id = |p: Seq<char>| p;
    lemma_first_occurrences_keys(parents, parents, id);
    assert(parents.take(parents.len() as int) =~= parents);
    assert(first_occurrences(parents, parents).map_values(id) =~= first_occurrences(parents, parents));
    assert forall|i: int| 0 <= i < paths.len() implies parent_dirs_of(paths).contains(parent_key(#[trigger] paths[i])) by {
        assert(parents[i] == parent_key(paths[i]));
    }
}

/// What a watcher notification means: a stop request where it carries a
/// signal, a change where a watched path changed, nothing otherwise.
pub open spec fn notification_event_of(has_signal: bool, path_changed: bool) -> Option<Event> {
    if has_signal {
        Some(Event::Quit)
    } else if path_changed {
        Some(Event::Trigger)
    } else {
        None
    }
}

/// What a watcher notification means.
pub fn notification_event(has_signal: bool, path_changed: bool) -> (e: Option<Event>)
    ensures
        e == notification_event_of(has_signal, path_changed),
{
    if has_signal {
        Some(Event::Quit)
    } else if path_changed {
        Some(Event::Trigger)
    } else {
        None
    }
}

/// A notification that carries a signal is a stop request, whether or not a
/// watched path changed, and it stops the running loop; without a signal, a
/// notification is a change exactly where a watched path changed, and
/// nothing otherwise.
pub proof fn lemma_signal_stops(path_changed: bool, s: Supervisor)
    requires
        !s.stopped,
    ensures
        notification_event_of(true, path_changed) == Some(Event::Quit),
        step_of(s, notification_event_of(true, path_changed)->0).0.stopped,
        step_of(s, notification_event_of(true, path_changed)->0).1 == (WatchAction::Stop {
            cancel_run: s.active,
        }),
        path_changed ==> notification_event_of(false, path_changed) == Some(Event::Trigger),
        !path_changed ==> notification_event_of(false, path_changed) is None,
{
}

/// A watched path matches a changed path exactly when it is the same path
/// as a `Path` (same root flag and same components, so `.` components and
/// repeated slashes do not count) as the changed path or as its canonical
/// form.
pub proof fn lemma_match_is_same_path(
    watched: Seq<char>,
    absolute: Seq<char>,
    canonical: Option<Seq<char>>,
)
    ensures
        is_match(watched, absolute, canonical) <==> ((has_root(watched) == has_root(absolute)
            && components(watched) == components(absolute)) || (canonical is Some && has_root(
            watched,
        ) == has_root(canonical->0) && components(watched) == components(canonical->0))),
{
    lemma_normal_form_is_same_path(watched);
    lemma_normal_form_is_same_path(absolute);
    if canonical is Some {
        lemma_normal_form_is_same_path(canonical->0);
    }
}

} // verus!
