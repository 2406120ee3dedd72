//! The engine's lifecycle bookkeeping as a state machine: which run or explain is in flight
//! per workspace, which snapshot each workspace currently owns, which catalog entries are
//! being profiled, how much background work is going, and which snapshots callers hold open.
//!
//! Every method decides and returns the [`Action`]s the host must then perform — aborting a
//! task, deleting a snapshot — so the decisions are proved here while the runtime, the task
//! handles and the files stay with the host.

use std::collections::{HashMap, HashSet};
use vstd::prelude::*;

verus! {

broadcast use vstd::std_specs::hash::group_hash_axioms;

/// The error of a call the caller stopped: a cancel aborted it.
pub const CANCELLED: &'static str = "cancelled";

/// The error of a run that finished after a newer dispatch for its workspace replaced it.
pub const SUPERSEDED_RUN: &'static str = "superseded by a newer run";

/// The error of a scan that a re-scan of the same entry replaced.
pub const SUPERSEDED_SCAN: &'static str = "superseded by a newer scan";

/// Is `error` one of the three words for a call that was stopped rather than failed?
pub open spec fn is_stop(error: Seq<char>) -> bool {
    error == CANCELLED@ || error == SUPERSEDED_RUN@ || error == SUPERSEDED_SCAN@
}

/// Did this error mean the call was **stopped** — cancelled, or replaced by a newer run or
/// scan — rather than that it failed? [`is_stop`]
pub fn stopped_on_purpose(error: &str) -> (r: bool)
    ensures
        r == is_stop(error@),
{
    let e = crate::text::chars_of(error);
    let a = crate::text::chars_of(CANCELLED);
    let b = crate::text::chars_of(SUPERSEDED_RUN);
    let c = crate::text::chars_of(SUPERSEDED_SCAN);
    crate::text::same_chars(&e, &a) || crate::text::same_chars(&e, &b) || crate::text::same_chars(&e, &c)
}

/// A workspace's stable identity: the query tab that owns a run and its current snapshot.
#[derive(Clone, Copy, PartialEq, Eq, Hash, PartialOrd, Ord, Debug)]
pub struct WsId(pub u128);

/// One dispatched run's identity as its caller knows it, the per-press nonce. It is not unique:
/// the same tag may be dispatched twice, so the lifecycle keys on its own dispatch id.
#[derive(Clone, Copy, PartialEq, Eq, Hash, Debug)]
pub struct RunTag(pub u128);

/// A workspace's in-flight run or explain: the engine's own dispatch id, the caller's tag,
/// and the snapshot it is materializing (`None` for an explain or a statement).
#[derive(Clone, Copy, Debug, PartialEq, Eq)]
pub struct Flight {
    pub dispatch: u64,
    pub tag: u128,
    pub snapshot: Option<u64>,
}

/// Work the host has to carry out on the lifecycle's behalf.
#[derive(Clone, Copy, Debug, PartialEq, Eq)]
pub enum Action {
    /// Abort the task of this run or explain dispatch.
    Abort { dispatch: u64 },
    /// Abort the task of this profile dispatch.
    AbortProfile { dispatch: u64 },
    /// Delete this snapshot's file and deregister its table.
    Retire { snapshot: u64 },
}

/// How a query task ended, as its awaiter saw it.
#[derive(Clone, Copy, Debug, PartialEq, Eq)]
pub enum QueryEnd {
    /// The task returned its output; `snapshot` is the handle the output carries.
    Finished { snapshot: Option<u64> },
    /// The task returned its own error.
    Failed,
    /// The task was aborted.
    Cancelled,
    /// The task panicked or was dropped by the runtime.
    Panicked,
}

/// What the awaiter of a settled query answers its caller with.
#[derive(Clone, Copy, Debug, PartialEq, Eq)]
pub enum Settled {
    /// Hand the output over.
    Deliver,
    /// A newer dispatch replaced this one: `superseded by a newer run`.
    Superseded,
    /// Pass the task's own error through.
    Failed,
    /// `cancelled`.
    Cancelled,
    /// The task failed at the runtime level.
    Panicked,
}

/// One in-flight profile scan: the folded entry name and its dispatch.
#[derive(Clone, Debug)]
pub struct ProfileRun {
    pub key: String,
    pub dispatch: u64,
}

/// The engine's lifecycle bookkeeping, all in one value.
pub struct Lifecycle {
    inflight: HashMap<u128, Flight>,
    current: HashMap<u128, u64>,
    profiles: Vec<ProfileRun>,
    background: usize,
    pins: HashMap<u64, usize>,
    deferred: HashSet<u64>,
    live: HashSet<u64>,
}


/// The lifecycle as mathematics: what [`Lifecycle`] holds, without the containers.
#[verifier::ext_equal]
pub struct LifeModel {
    pub flights: Map<u128, Flight>,
    pub owned: Map<u128, u64>,
    pub scans: Map<Seq<char>, u64>,
    pub background: nat,
    pub holds: Map<u64, nat>,
    pub deferred: Set<u64>,
    pub live: Set<u64>,
}

/// Whether anything is in flight — the close-while-running flag.
pub open spec fn model_busy(m: LifeModel) -> bool {
    m.flights.dom() != Set::<u128>::empty() || m.scans.dom() != Set::<Seq<char>>::empty()
        || m.background > 0
}

/// No key appears twice among the in-flight profile scans.
pub open spec fn keys_unique(s: Seq<ProfileRun>) -> bool {
    forall|i: int, j: int| 0 <= i < s.len() && 0 <= j < s.len() && i != j ==> s[i].key@ != s[j].key@
}

/// The in-flight profile scans as a map from folded entry name to dispatch.
pub open spec fn profile_map(s: Seq<ProfileRun>) -> Map<Seq<char>, u64>
    decreases s.len(),
{
    if s.len() == 0 {
        Map::empty()
    } else {
        profile_map(s.drop_last()).insert(s.last().key@, s.last().dispatch)
    }
}

proof fn lemma_profile_map(s: Seq<ProfileRun>)
    requires
        keys_unique(s),
    ensures
        forall|k: Seq<char>| #[trigger] profile_map(s).contains_key(k) <==> exists|i: int| 0 <= i < s.len() && s[i].key@ == k,
        forall|i: int| 0 <= i < s.len() ==> profile_map(s)[#[trigger] s[i].key@] == s[i].dispatch,
    decreases s.len(),
{
    if s.len() > 0 {
        let t = s.drop_last();
        assert(keys_unique(t));
        lemma_profile_map(t);
        assert(profile_map(s) == profile_map(t).insert(s.last().key@, s.last().dispatch));
        assert forall|k: Seq<char>| #[trigger] profile_map(s).contains_key(k) implies exists|i: int| 0 <= i < s.len() && s[i].key@ == k by {
            if k == s.last().key@ {
                assert(s[s.len() - 1].key@ == k);
            } else {
                let i = choose|i: int| 0 <= i < t.len() && t[i].key@ == k;
                assert(t[i] == s[i]);
                assert(s[i].key@ == k);
            }
        }
        assert forall|k: Seq<char>| (exists|i: int| 0 <= i < s.len() && s[i].key@ == k) implies #[trigger] profile_map(s).contains_key(k) by {
            let i = choose|i: int| 0 <= i < s.len() && s[i].key@ == k;
            if i < s.len() - 1 {
                assert(t[i] == s[i]);
                assert(t[i].key@ == k);
            }
        }
        assert forall|i: int| 0 <= i < s.len() implies profile_map(s)[#[trigger] s[i].key@] == s[i].dispatch by {
            if i < s.len() - 1 {
                assert(t[i] == s[i]);
                assert(s[i].key@ != s.last().key@);
            }
        }
    }
}

proof fn lemma_profile_map_empty(s: Seq<ProfileRun>)
    ensures
        (s.len() == 0) == (profile_map(s).dom() == Set::<Seq<char>>::empty()),
{
    if s.len() == 0 {
        assert(profile_map(s).dom() =~= Set::<Seq<char>>::empty());
    } else {
        assert(profile_map(s).dom().contains(s.last().key@));
    }
}

/// What tearing down an in-flight run takes: abort its task, and retire whatever snapshot it
/// was materializing.
pub open spec fn abort_actions(f: Flight) -> Seq<Action> {
    match f.snapshot {
        Some(s) => seq![Action::Abort { dispatch: f.dispatch }, Action::Retire { snapshot: s }],
        None => seq![Action::Abort { dispatch: f.dispatch }],
    }
}

/// Retire `s` unless a caller holds it open, in which case remember to retire it when the
/// last hold goes.
pub open spec fn retire_or_defer(m: LifeModel, s: u64) -> (LifeModel, Seq<Action>) {
    if m.holds.contains_key(s) {
        (LifeModel { deferred: m.deferred.insert(s), ..m }, seq![])
    } else {
        (LifeModel { live: m.live.remove(s), ..m }, seq![Action::Retire { snapshot: s }])
    }
}

/// Stop whatever `ws` has in flight.
pub open spec fn drop_flight(m: LifeModel, ws: u128) -> (LifeModel, Seq<Action>) {
    if m.flights.contains_key(ws) {
        (LifeModel { flights: m.flights.remove(ws), ..m }, abort_actions(m.flights[ws]))
    } else {
        (m, seq![])
    }
}

/// A run dispatched for `ws`: supersede its in-flight call, retire (or defer) the snapshot it
/// owned, and record the new flight, which materializes `snapshot`.
pub open spec fn begin_query(m: LifeModel, ws: u128, dispatch: u64, tag: u128, snapshot: u64) -> (
    LifeModel,
    Seq<Action>,
) {
    let (m1, a1) = drop_flight(m, ws);
    let (m2, a2) = if m1.owned.contains_key(ws) {
        let old = m1.owned[ws];
        retire_or_defer(LifeModel { owned: m1.owned.remove(ws), ..m1 }, old)
    } else {
        (m1, seq![])
    };
    (
        LifeModel {
            flights: m2.flights.insert(ws, Flight { dispatch, tag, snapshot: Some(snapshot) }),
            ..m2
        },
        a1 + a2,
    )
}

/// A call that materializes nothing (an explain or a statement) dispatched for `ws`: it
/// supersedes the in-flight call and leaves the owned snapshot alone.
pub open spec fn begin_call(m: LifeModel, ws: u128, dispatch: u64, tag: u128) -> (LifeModel, Seq<Action>) {
    let (m1, a1) = drop_flight(m, ws);
    (LifeModel { flights: m1.flights.insert(ws, Flight { dispatch, tag, snapshot: None }), ..m1 }, a1)
}

/// Whether `dispatch` is still `ws`'s latest.
pub open spec fn is_latest(m: LifeModel, ws: u128, dispatch: u64) -> bool {
    m.flights.contains_key(ws) && m.flights[ws].dispatch == dispatch
}

/// The flights once `dispatch` has settled: removed if it is still the latest.
pub open spec fn settle_flights(m: LifeModel, ws: u128, dispatch: u64) -> Map<u128, Flight> {
    if is_latest(m, ws, dispatch) {
        m.flights.remove(ws)
    } else {
        m.flights
    }
}

/// A query dispatch settled: only the still-latest dispatch may settle the workspace, and a
/// snapshot that is not handed over is retired.
pub open spec fn settle_query(m: LifeModel, ws: u128, dispatch: u64, snapshot: u64, end: QueryEnd) -> (
    LifeModel,
    Settled,
    Seq<Action>,
) {
    let latest = is_latest(m, ws, dispatch);
    let m1 = LifeModel { flights: settle_flights(m, ws, dispatch), ..m };
    match end {
        QueryEnd::Finished { snapshot: out } => if latest {
            match out {
                Some(s) => (
                    LifeModel { owned: m1.owned.insert(ws, s), live: m1.live.insert(s), ..m1 },
                    Settled::Deliver,
                    seq![],
                ),
                None => (m1, Settled::Deliver, seq![]),
            }
        } else {
            (m1, Settled::Superseded, seq![Action::Retire { snapshot }])
        },
        QueryEnd::Failed => (m1, Settled::Failed, seq![]),
        QueryEnd::Cancelled => (m1, Settled::Cancelled, seq![Action::Retire { snapshot }]),
        QueryEnd::Panicked => (m1, Settled::Panicked, seq![Action::Retire { snapshot }]),
    }
}

/// A dispatch whose caller went away before it settled: undone iff still the latest.
pub open spec fn abandon(m: LifeModel, ws: u128, dispatch: u64) -> (LifeModel, Seq<Action>) {
    if is_latest(m, ws, dispatch) {
        drop_flight(m, ws)
    } else {
        (m, seq![])
    }
}

/// Cancel `ws`'s in-flight call iff it is still the one tagged `tag`.
pub open spec fn cancel(m: LifeModel, ws: u128, tag: u128) -> (LifeModel, Option<Seq<Action>>) {
    if m.flights.contains_key(ws) && m.flights[ws].tag == tag {
        let (m1, a) = drop_flight(m, ws);
        (m1, Some(a))
    } else {
        (m, None)
    }
}

/// Tear down one workspace: stop its call and retire (or defer) its snapshot.
pub open spec fn cleanup(m: LifeModel, ws: u128) -> (LifeModel, Seq<Action>) {
    let (m1, a1) = drop_flight(m, ws);
    if m1.owned.contains_key(ws) {
        let old = m1.owned[ws];
        let (m2, a2) = retire_or_defer(LifeModel { owned: m1.owned.remove(ws), ..m1 }, old);
        (m2, a1 + a2)
    } else {
        (m1, a1)
    }
}

/// One more hold on `s`.
pub open spec fn pin(m: LifeModel, s: u64) -> LifeModel {
    let n: nat = if m.holds.contains_key(s) { m.holds[s] } else { 0 };
    LifeModel { holds: m.holds.insert(s, n + 1), ..m }
}

/// One hold on `s` released — retiring it for real when this was the last hold and a retire
/// arrived meanwhile; `None` for a release of a snapshot nobody held.
pub open spec fn release(m: LifeModel, s: u64) -> (LifeModel, Option<Seq<Action>>) {
    if !m.holds.contains_key(s) {
        (m, None)
    } else if m.holds[s] > 1 {
        (LifeModel { holds: m.holds.insert(s, (m.holds[s] - 1) as nat), ..m }, Some(seq![]))
    } else if m.deferred.contains(s) {
        (
            LifeModel {
                holds: m.holds.remove(s),
                deferred: m.deferred.remove(s),
                live: m.live.remove(s),
                ..m
            },
            Some(seq![Action::Retire { snapshot: s }]),
        )
    } else {
        (LifeModel { holds: m.holds.remove(s), ..m }, Some(seq![]))
    }
}


/// A profile scan of `key` dispatched: a scan already running for it is aborted.
pub open spec fn begin_profile(m: LifeModel, key: Seq<char>, dispatch: u64) -> (LifeModel, Seq<Action>) {
    let a = if m.scans.contains_key(key) {
        seq![Action::AbortProfile { dispatch: m.scans[key] }]
    } else {
        seq![]
    };
    (LifeModel { scans: m.scans.insert(key, dispatch), ..m }, a)
}

/// A profile dispatch settled: its entry goes iff it is still the latest for `key`.
pub open spec fn settle_profile(m: LifeModel, key: Seq<char>, dispatch: u64) -> (LifeModel, bool) {
    if m.scans.contains_key(key) && m.scans[key] == dispatch {
        (LifeModel { scans: m.scans.remove(key), ..m }, true)
    } else {
        (m, false)
    }
}

/// Stop the profile scan of `key`, if one is running.
pub open spec fn cancel_profile(m: LifeModel, key: Seq<char>) -> (LifeModel, Option<Action>) {
    if m.scans.contains_key(key) {
        (LifeModel { scans: m.scans.remove(key), ..m }, Some(Action::AbortProfile { dispatch: m.scans[key] }))
    } else {
        (m, None)
    }
}

proof fn lemma_profile_update(s: Seq<ProfileRun>, i: int, r: ProfileRun)
    requires
        keys_unique(s),
        0 <= i < s.len(),
        s[i].key@ == r.key@,
    ensures
        keys_unique(s.update(i, r)),
        profile_map(s.update(i, r)) =~= profile_map(s).insert(r.key@, r.dispatch),
{
    let t = s.update(i, r);
    assert(keys_unique(t)) by {
        assert forall|a: int, b: int| 0 <= a < t.len() && 0 <= b < t.len() && a != b implies t[a].key@ != t[b].key@ by {
            assert(s[a].key@ != s[b].key@);
        }
    }
    lemma_profile_map(s);
    lemma_profile_map(t);
    assert forall|k: Seq<char>| profile_map(t).contains_key(k) <== profile_map(s).insert(r.key@, r.dispatch).contains_key(k) by {
        if k == r.key@ {
            assert(t[i].key@ == k);
        } else if profile_map(s).contains_key(k) {
            let j = choose|j: int| 0 <= j < s.len() && s[j].key@ == k;
            assert(t[j].key@ == k);
        }
    }
    assert forall|k: Seq<char>| profile_map(t).contains_key(k) implies profile_map(s).insert(r.key@, r.dispatch).contains_key(k) && profile_map(t)[k] == profile_map(s).insert(r.key@, r.dispatch)[k] by {
        let j = choose|j: int| 0 <= j < t.len() && t[j].key@ == k;
        if j == i {
        } else {
            assert(s[j].key@ == k);
            assert(t[j] == s[j]);
        }
    }
}

proof fn lemma_profile_remove(s: Seq<ProfileRun>, i: int)
    requires
        keys_unique(s),
        0 <= i < s.len(),
    ensures
        keys_unique(s.remove(i)),
        profile_map(s.remove(i)) =~= profile_map(s).remove(s[i].key@),
{
    let t = s.remove(i);
    assert(keys_unique(t)) by {
        assert forall|a: int, b: int| 0 <= a < t.len() && 0 <= b < t.len() && a != b implies t[a].key@ != t[b].key@ by {
            let a2 = if a < i { a } else { a + 1 };
            let b2 = if b < i { b } else { b + 1 };
            assert(t[a] == s[a2]);
            assert(t[b] == s[b2]);
        }
    }
    lemma_profile_map(s);
    lemma_profile_map(t);
    let gone = s[i].key@;
    assert forall|k: Seq<char>| profile_map(s).remove(gone).contains_key(k) implies profile_map(t).contains_key(k) by {
        let j = choose|j: int| 0 <= j < s.len() && s[j].key@ == k;
        assert(j != i);
        let j2 = if j < i { j } else { j - 1 };
        assert(t[j2] == s[j]);
    }
    assert forall|k: Seq<char>| profile_map(t).contains_key(k) implies profile_map(s).remove(gone).contains_key(k) && profile_map(t)[k] == profile_map(s)[k] by {
        let j = choose|j: int| 0 <= j < t.len() && t[j].key@ == k;
        let j2 = if j < i { j } else { j + 1 };
        assert(t[j] == s[j2]);
        assert(j2 != i);
    }
}

impl Lifecycle {
    /// The bookkeeping as a [`LifeModel`].
    pub closed spec fn model(&self) -> LifeModel {
        LifeModel {
            flights: self.inflight@,
            owned: self.current@,
            scans: profile_map(self.profiles@),
            background: self.background as nat,
            holds: self.pins@.map_values(|n: usize| n as nat),
            deferred: self.deferred@,
            live: self.live@,
        }
    }

    /// The bookkeeping is consistent: each profile key appears once and matches the map, every
    /// pin has at least one hold, and a deferred retire always belongs to a pinned snapshot.
    pub closed spec fn wf(&self) -> bool {
        &&& keys_unique(self.profiles@)
        &&& forall|s: u64| #[trigger] self.pins@.contains_key(s) ==> self.pins@[s] > 0
        &&& forall|s: u64| #[trigger] self.deferred@.contains(s) ==> self.pins@.contains_key(s)
    }

    /// A lifecycle with nothing in flight and nothing owned.
    pub fn new() -> (r: Lifecycle)
        ensures
            r.wf(),
            r.model() == (LifeModel {
                flights: Map::empty(),
                owned: Map::empty(),
                scans: Map::empty(),
                background: 0,
                holds: Map::empty(),
                deferred: Set::empty(),
                live: Set::empty(),
            }),
    {
        let r = Lifecycle {
            inflight: HashMap::new(),
            current: HashMap::new(),
            profiles: Vec::new(),
            background: 0,
            pins: HashMap::new(),
            deferred: HashSet::new(),
            live: HashSet::new(),
        };
        assert(r.pins@.map_values(|n: usize| n as nat) =~= Map::<u64, nat>::empty());
        r
    }

    /// Whether anything is in flight: a run, a profile scan, or background work.
    pub fn busy(&self) -> (r: bool)
        requires
            self.wf(),
        ensures
            r == model_busy(self.model()),
    {
        proof {
            lemma_profile_map_empty(self.profiles@);
            vstd::set_lib::lemma_set_empty_equivalency_len(self.inflight@.dom());
        }
        !self.inflight.is_empty() || !self.profiles.is_empty() || self.background > 0
    }

    proof fn lemma_holds_view(&self)
        ensures
            forall|k: u64| #[trigger] self.model().holds.contains_key(k) <==> self.pins@.contains_key(k),
            forall|k: u64| self.pins@.contains_key(k) ==> #[trigger] self.model().holds[k] == self.pins@[k] as nat,
    {
    }

    fn drop_flight_exec(&mut self, ws: u128) -> (a: Vec<Action>)
        requires
            old(self).wf(),
        ensures
            final(self).wf(),
            final(self).model() == drop_flight(old(self).model(), ws).0,
            a@ == drop_flight(old(self).model(), ws).1,
    {
        let mut a: Vec<Action> = Vec::new();
        match self.inflight.remove(&ws) {
            Some(f) => {
                a.push(Action::Abort { dispatch: f.dispatch });
                match f.snapshot {
                    Some(s) => {
                        a.push(Action::Retire { snapshot: s });
                    },
                    None => {},
                }
                assert(a@ =~= abort_actions(f));
            },
            None => {},
        }
        assert(self.model() =~= drop_flight(old(self).model(), ws).0);
        a
    }

    fn retire_or_defer_exec(&mut self, s: u64) -> (a: Vec<Action>)
        requires
            old(self).wf(),
        ensures
            final(self).wf(),
            final(self).model() == retire_or_defer(old(self).model(), s).0,
            a@ == retire_or_defer(old(self).model(), s).1,
    {
        proof {
            self.lemma_holds_view();
        }
        let mut a: Vec<Action> = Vec::new();
        if self.pins.contains_key(&s) {
            self.deferred.insert(s);
        } else {
            self.live.remove(&s);
            a.push(Action::Retire { snapshot: s });
        }
        assert(a@ =~= retire_or_defer(old(self).model(), s).1);
        a
    }

    /// A run dispatched for workspace `ws` as `dispatch` (tagged `tag` by its caller), which
    /// will materialize `snapshot`: the previous call is superseded and the snapshot the
    /// workspace owned is retired, or deferred while a caller holds it.
    pub fn begin_query(&mut self, ws: WsId, dispatch: u64, tag: RunTag, snapshot: u64) -> (a: Vec<Action>)
        requires
            old(self).wf(),
        ensures
            final(self).wf(),
            final(self).model() == begin_query(old(self).model(), ws.0, dispatch, tag.0, snapshot).0,
            a@ == begin_query(old(self).model(), ws.0, dispatch, tag.0, snapshot).1,
    {
        let ws: u128 = ws.0;
        let tag: u128 = tag.0;
        let mut a = self.drop_flight_exec(ws);
        let ghost m1 = self.model();
        match self.current.remove(&ws) {
            Some(old) => {
                assert(self.model() == LifeModel { owned: m1.owned.remove(ws), ..m1 });
                let mut b = self.retire_or_defer_exec(old);
                a.append(&mut b);
            },
            None => {},
        }
        self.inflight.insert(ws, Flight { dispatch, tag, snapshot: Some(snapshot) });
        assert(self.model() =~= begin_query(old(self).model(), ws, dispatch, tag, snapshot).0);
        assert(a@ =~= begin_query(old(self).model(), ws, dispatch, tag, snapshot).1);
        a
    }

    /// An explain or an intercepted statement dispatched for `ws`: it supersedes the previous
    /// call and leaves the workspace's snapshot alone.
    pub fn begin_call(&mut self, ws: WsId, dispatch: u64, tag: RunTag) -> (a: Vec<Action>)
        requires
            old(self).wf(),
        ensures
            final(self).wf(),
            final(self).model() == begin_call(old(self).model(), ws.0, dispatch, tag.0).0,
            a@ == begin_call(old(self).model(), ws.0, dispatch, tag.0).1,
    {
        let ws: u128 = ws.0;
        let tag: u128 = tag.0;
        let a = self.drop_flight_exec(ws);
        self.inflight.insert(ws, Flight { dispatch, tag, snapshot: None });
        assert(self.model() =~= begin_call(old(self).model(), ws, dispatch, tag).0);
        a
    }

    fn settle_flight(&mut self, ws: u128, dispatch: u64) -> (latest: bool)
        requires
            old(self).wf(),
        ensures
            final(self).wf(),
            latest == is_latest(old(self).model(), ws, dispatch),
            final(self).model() == (LifeModel {
                flights: settle_flights(old(self).model(), ws, dispatch),
                ..old(self).model()
            }),
    {
        let latest = match self.inflight.get(&ws) {
            Some(f) => f.dispatch == dispatch,
            None => false,
        };
        if latest {
            self.inflight.remove(&ws);
        }
        assert(self.model() =~= LifeModel {
            flights: settle_flights(old(self).model(), ws, dispatch),
            ..old(self).model()
        });
        latest
    }

    /// A query dispatch settled with `end`: the still-latest dispatch takes the workspace's
    /// snapshot and is delivered; anything else retires what it materialized.
    pub fn settle_query(&mut self, ws: WsId, dispatch: u64, snapshot: u64, end: QueryEnd) -> (r: (
        Settled,
        Vec<Action>,
    ))
        requires
            old(self).wf(),
        ensures
            final(self).wf(),
            final(self).model() == settle_query(old(self).model(), ws.0, dispatch, snapshot, end).0,
            r.0 == settle_query(old(self).model(), ws.0, dispatch, snapshot, end).1,
            r.1@ == settle_query(old(self).model(), ws.0, dispatch, snapshot, end).2,
    {
        let ws: u128 = ws.0;
        let latest = self.settle_flight(ws, dispatch);
        let ghost m1 = self.model();
        let mut a: Vec<Action> = Vec::new();
        let verdict = match end {
            QueryEnd::Finished { snapshot: out } => {
                if latest {
                    match out {
                        Some(s) => {
                            self.current.insert(ws, s);
                            self.live.insert(s);
                            assert(self.model() =~= LifeModel {
                                owned: m1.owned.insert(ws, s),
                                live: m1.live.insert(s),
                                ..m1
                            });
                        },
                        None => {},
                    }
                    Settled::Deliver
                } else {
                    a.push(Action::Retire { snapshot });
                    Settled::Superseded
                }
            },
            QueryEnd::Failed => Settled::Failed,
            QueryEnd::Cancelled => {
                a.push(Action::Retire { snapshot });
                Settled::Cancelled
            },
            QueryEnd::Panicked => {
                a.push(Action::Retire { snapshot });
                Settled::Panicked
            },
        };
        assert(a@ =~= settle_query(old(self).model(), ws, dispatch, snapshot, end).2);
        (verdict, a)
    }

    /// A call that materializes nothing settled: its entry goes iff it is still the latest.
    pub fn settle_call(&mut self, ws: WsId, dispatch: u64) -> (latest: bool)
        requires
            old(self).wf(),
        ensures
            final(self).wf(),
            latest == is_latest(old(self).model(), ws.0, dispatch),
            final(self).model() == (LifeModel {
                flights: settle_flights(old(self).model(), ws.0, dispatch),
                ..old(self).model()
            }),
    {
        let ws: u128 = ws.0;
        self.settle_flight(ws, dispatch)
    }

    /// The caller of `dispatch` went away before it settled: undo its entry iff it is still the
    /// latest, aborting its task and retiring what it materialized.
    pub fn abandon(&mut self, ws: WsId, dispatch: u64) -> (a: Vec<Action>)
        requires
            old(self).wf(),
        ensures
            final(self).wf(),
            final(self).model() == abandon(old(self).model(), ws.0, dispatch).0,
            a@ == abandon(old(self).model(), ws.0, dispatch).1,
    {
        let ws: u128 = ws.0;
        let latest = match self.inflight.get(&ws) {
            Some(f) => f.dispatch == dispatch,
            None => false,
        };
        if latest {
            self.drop_flight_exec(ws)
        } else {
            Vec::new()
        }
    }

    /// Cancel `ws`'s in-flight call iff it is still the one tagged `tag`; `None` when nothing
    /// was cancelled.
    pub fn cancel(&mut self, ws: WsId, tag: RunTag) -> (r: Option<Vec<Action>>)
        requires
            old(self).wf(),
        ensures
            final(self).wf(),
            final(self).model() == cancel(old(self).model(), ws.0, tag.0).0,
            match r {
                Some(a) => cancel(old(self).model(), ws.0, tag.0).1 == Some(a@),
                None => cancel(old(self).model(), ws.0, tag.0).1 is None,
            },
    {
        let ws: u128 = ws.0;
        let tag: u128 = tag.0;
        let hit = match self.inflight.get(&ws) {
            Some(f) => f.tag == tag,
            None => false,
        };
        if hit {
            Some(self.drop_flight_exec(ws))
        } else {
            None
        }
    }

    /// Tear down workspace `ws` (its tab closed): stop its call, retire or defer its snapshot.
    pub fn cleanup(&mut self, ws: WsId) -> (a: Vec<Action>)
        requires
            old(self).wf(),
        ensures
            final(self).wf(),
            final(self).model() == cleanup(old(self).model(), ws.0).0,
            a@ == cleanup(old(self).model(), ws.0).1,
    {
        let ws: u128 = ws.0;
        let mut a = self.drop_flight_exec(ws);
        let ghost m1 = self.model();
        match self.current.remove(&ws) {
            Some(old) => {
                assert(self.model() == LifeModel { owned: m1.owned.remove(ws), ..m1 });
                let mut b = self.retire_or_defer_exec(old);
                a.append(&mut b);
            },
            None => {},
        }
        a
    }

    /// Whether workspace `ws` has a run or explain in flight.
    pub fn is_running(&self, ws: WsId) -> (r: bool)
        ensures
            r == self.model().flights.contains_key(ws.0),
    {
        let ws: u128 = ws.0;
        self.inflight.contains_key(&ws)
    }

    /// Whether `snapshot` is still there to be read.
    pub fn snapshot_live(&self, snapshot: u64) -> (r: bool)
        ensures
            r == self.model().live.contains(snapshot),
    {
        self.live.contains(&snapshot)
    }

    /// Hold `snapshot` open: a retire that arrives while it is held is deferred.
    pub fn pin(&mut self, snapshot: u64)
        requires
            old(self).wf(),
        ensures
            final(self).wf(),
            old(self).model().holds.contains_key(snapshot) ==> old(self).model().holds[snapshot]
                >= usize::MAX ==> final(self).model() == old(self).model(),
            !(old(self).model().holds.contains_key(snapshot) && old(self).model().holds[snapshot]
                >= usize::MAX) ==> final(self).model() == pin(old(self).model(), snapshot),
    {
        proof {
            self.lemma_holds_view();
        }
        let n: usize = match self.pins.get(&snapshot) {
            Some(n) => *n,
            None => 0,
        };
        if n < usize::MAX {
            self.pins.insert(snapshot, n + 1);
            assert(self.model().holds =~= pin(old(self).model(), snapshot).holds);
        }
    }

    /// Release one hold on `snapshot`, retiring it when this was the last hold and a retire is
    /// waiting; `None` for a release nobody held.
    pub fn release(&mut self, snapshot: u64) -> (r: Option<Vec<Action>>)
        requires
            old(self).wf(),
        ensures
            final(self).wf(),
            final(self).model() == release(old(self).model(), snapshot).0,
            match r {
                Some(a) => release(old(self).model(), snapshot).1 == Some(a@),
                None => release(old(self).model(), snapshot).1 is None,
            },
    {
        proof {
            self.lemma_holds_view();
        }
        let n: usize = match self.pins.get(&snapshot) {
            Some(n) => *n,
            None => {
                return None;
            },
        };
        let mut a: Vec<Action> = Vec::new();
        if n > 1 {
            self.pins.insert(snapshot, n - 1);
            assert(self.model().holds =~= release(old(self).model(), snapshot).0.holds);
        } else {
            self.pins.remove(&snapshot);
            if self.deferred.contains(&snapshot) {
                self.deferred.remove(&snapshot);
                self.live.remove(&snapshot);
                a.push(Action::Retire { snapshot });
            }
            assert(self.model().holds =~= release(old(self).model(), snapshot).0.holds);
        }
        assert(self.model() =~= release(old(self).model(), snapshot).0);
        assert(a@ =~= release(old(self).model(), snapshot).1.unwrap());
        Some(a)
    }

    /// One more piece of background work (an export, a table's data being deleted).
    pub fn begin_background(&mut self)
        requires
            old(self).wf(),
        ensures
            final(self).wf(),
            final(self).model() == (LifeModel {
                background: if old(self).model().background < usize::MAX {
                    old(self).model().background + 1
                } else {
                    old(self).model().background
                },
                ..old(self).model()
            }),
    {
        if self.background < usize::MAX {
            self.background = self.background + 1;
        }
    }

    /// One piece of background work finished; never below zero.
    pub fn end_background(&mut self)
        requires
            old(self).wf(),
        ensures
            final(self).wf(),
            final(self).model() == (LifeModel {
                background: if old(self).model().background > 0 {
                    (old(self).model().background - 1) as nat
                } else {
                    0
                },
                ..old(self).model()
            }),
    {
        if self.background > 0 {
            self.background = self.background - 1;
        }
    }

    fn find_profile(&self, key: &String) -> (r: Option<usize>)
        ensures
            match r {
                Some(i) => i < self.profiles@.len() && self.profiles@[i as int].key@ == key@,
                None => forall|j: int| 0 <= j < self.profiles@.len() ==> self.profiles@[j].key@ != key@,
            },
    {
        let mut i: usize = 0;
        while i < self.profiles.len()
            invariant
                i <= self.profiles@.len(),
                forall|j: int| 0 <= j < i ==> self.profiles@[j].key@ != key@,
            decreases self.profiles@.len() - i,
        {
            if self.profiles[i].key == *key {
                return Some(i);
            }
            i = i + 1;
        }
        None
    }

    /// A profile scan of the entry folded to `key` dispatched as `dispatch`; a scan already
    /// running for that entry is aborted.
    pub fn begin_profile(&mut self, key: String, dispatch: u64) -> (a: Vec<Action>)
        requires
            old(self).wf(),
        ensures
            final(self).wf(),
            final(self).model() == begin_profile(old(self).model(), key@, dispatch).0,
            a@ == begin_profile(old(self).model(), key@, dispatch).1,
    {
        proof {
            lemma_profile_map(self.profiles@);
        }
        let mut a: Vec<Action> = Vec::new();
        match self.find_profile(&key) {
            Some(i) => {
                a.push(Action::AbortProfile { dispatch: self.profiles[i].dispatch });
                let ghost k = key@;
                let run = ProfileRun { key, dispatch };
                proof {
                    lemma_profile_update(self.profiles@, i as int, run);
                }
                self.profiles.set(i, run);
                assert(a@ =~= begin_profile(old(self).model(), k, dispatch).1);
            },
            None => {
                assert(!profile_map(self.profiles@).contains_key(key@));
                let ghost k = key@;
                let run = ProfileRun { key, dispatch };
                let ghost before = self.profiles@;
                self.profiles.push(run);
                proof {
                    assert(self.profiles@.drop_last() =~= before);
                    assert(keys_unique(self.profiles@)) by {
                        assert forall|x: int, y: int| 0 <= x < self.profiles@.len() && 0 <= y < self.profiles@.len() && x != y implies self.profiles@[x].key@ != self.profiles@[y].key@ by {
                            if x < before.len() && y < before.len() {
                                assert(self.profiles@[x] == before[x]);
                                assert(self.profiles@[y] == before[y]);
                            } else if x < before.len() {
                                assert(self.profiles@[x] == before[x]);
                            } else {
                                assert(self.profiles@[y] == before[y]);
                            }
                        }
                    }
                }
                assert(a@ =~= begin_profile(old(self).model(), k, dispatch).1);
            },
        }
        assert(self.model() =~= begin_profile(old(self).model(), key@, dispatch).0);
        a
    }

    /// A profile dispatch settled; `true` when it was still the latest for `key`, whose entry
    /// then goes.
    pub fn settle_profile(&mut self, key: &String, dispatch: u64) -> (latest: bool)
        requires
            old(self).wf(),
        ensures
            final(self).wf(),
            final(self).model() == settle_profile(old(self).model(), key@, dispatch).0,
            latest == settle_profile(old(self).model(), key@, dispatch).1,
    {
        proof {
            lemma_profile_map(self.profiles@);
        }
        match self.find_profile(key) {
            Some(i) => {
                if self.profiles[i].dispatch == dispatch {
                    proof {
                        lemma_profile_remove(self.profiles@, i as int);
                    }
                    self.profiles.remove(i);
                    assert(self.model() =~= settle_profile(old(self).model(), key@, dispatch).0);
                    true
                } else {
                    false
                }
            },
            None => {
                assert(!profile_map(self.profiles@).contains_key(key@));
                false
            },
        }
    }

    /// Stop the profile scan of `key`, if one is running.
    pub fn cancel_profile(&mut self, key: &String) -> (r: Option<Action>)
        requires
            old(self).wf(),
        ensures
            final(self).wf(),
            final(self).model() == cancel_profile(old(self).model(), key@).0,
            r == cancel_profile(old(self).model(), key@).1,
    {
        proof {
            lemma_profile_map(self.profiles@);
        }
        match self.find_profile(key) {
            Some(i) => {
                let d = self.profiles[i].dispatch;
                proof {
                    lemma_profile_remove(self.profiles@, i as int);
                }
                self.profiles.remove(i);
                assert(self.model() =~= cancel_profile(old(self).model(), key@).0);
                Some(Action::AbortProfile { dispatch: d })
            },
            None => {
                assert(!profile_map(self.profiles@).contains_key(key@));
                None
            },
        }
    }

    /// Whether anything other than a workspace run is in flight: a profile scan or background
    /// work.
    pub fn has_background_work(&self) -> (r: bool)
        requires
            self.wf(),
        ensures
            r == (self.model().scans.dom() != Set::<Seq<char>>::empty() || self.model().background > 0),
    {
        proof {
            lemma_profile_map_empty(self.profiles@);
        }
        !self.profiles.is_empty() || self.background > 0
    }

    /// The engine is going: forget every run, scan and owned snapshot. The host aborts every
    /// task it still holds.
    pub fn shutdown(&mut self)
        requires
            old(self).wf(),
        ensures
            final(self).wf(),
            final(self).model() == (LifeModel {
                flights: Map::empty(),
                owned: Map::empty(),
                scans: Map::empty(),
                ..old(self).model()
            }),
    {
        self.inflight.clear();
        self.current.clear();
        self.profiles.clear();
        assert(self.profiles@ =~= Seq::<ProfileRun>::empty());
        assert(self.model() =~= LifeModel {
            flights: Map::empty(),
            owned: Map::empty(),
            scans: Map::empty(),
            ..old(self).model()
        });
    }
}


// ---- laws ------------------------------------------------------------------------------------

/// The consistency every model of a well-formed [`Lifecycle`] has.
pub open spec fn model_wf(m: LifeModel) -> bool {
    &&& forall|s: u64| #[trigger] m.deferred.contains(s) ==> m.holds.contains_key(s)
    &&& forall|s: u64| #[trigger] m.holds.contains_key(s) ==> m.holds[s] > 0
}

/// One more piece of background work.
pub open spec fn background_up(m: LifeModel) -> LifeModel {
    LifeModel { background: if m.background < usize::MAX { m.background + 1 } else { m.background }, ..m }
}

/// One piece of background work finished.
pub open spec fn background_down(m: LifeModel) -> LifeModel {
    LifeModel { background: if m.background > 0 { (m.background - 1) as nat } else { 0 }, ..m }
}

impl Lifecycle {
    /// A well-formed lifecycle's model is well-formed.
    pub proof fn lemma_model_wf(&self)
        requires
            self.wf(),
        ensures
            model_wf(self.model()),
    {
    }
}

/// A retire that lands on a pinned snapshot is **deferred, never skipped**: while the pin is
/// held the snapshot stays live and nothing is retired, and releasing the last hold retires it
/// exactly then.
pub proof fn law_pinned_retire_is_deferred_not_skipped(m: LifeModel, s: u64)
    requires
        model_wf(m),
        !m.holds.contains_key(s),
    ensures
        ({
            let m1 = pin(m, s);
            let (m2, a2) = retire_or_defer(m1, s);
            let (m3, a3) = release(m2, s);
            &&& a2 == Seq::<Action>::empty()
            &&& m2.live.contains(s) == m.live.contains(s)
            &&& m2.deferred.contains(s)
            &&& a3 == Some(seq![Action::Retire { snapshot: s }])
            &&& !m3.live.contains(s)
            &&& !m3.holds.contains_key(s)
            &&& !m3.deferred.contains(s)
        }),
{
}

/// A retire of a snapshot nobody holds happens at once, and the snapshot stops being live.
pub proof fn law_unpinned_retire_is_immediate(m: LifeModel, s: u64)
    requires
        !m.holds.contains_key(s),
    ensures
        retire_or_defer(m, s).1 == seq![Action::Retire { snapshot: s }],
        !retire_or_defer(m, s).0.live.contains(s),
{
}

/// A dispatch that is no longer its workspace's latest settles without touching the entry the
/// newer dispatch owns, or the snapshot the workspace owns; a finished result it produced is
/// retired rather than handed over.
pub proof fn law_superseded_settle_leaves_the_newer_run(
    m: LifeModel,
    ws: u128,
    dispatch: u64,
    snapshot: u64,
    end: QueryEnd,
)
    requires
        !is_latest(m, ws, dispatch),
    ensures
        settle_query(m, ws, dispatch, snapshot, end).0.flights == m.flights,
        settle_query(m, ws, dispatch, snapshot, end).0.owned == m.owned,
        end is Finished ==> settle_query(m, ws, dispatch, snapshot, end).1 == Settled::Superseded
            && settle_query(m, ws, dispatch, snapshot, end).2 == seq![Action::Retire { snapshot }],
{
}

/// A caller that went away after a newer dispatch replaced its own tears nothing down.
pub proof fn law_abandoned_superseded_dispatch_is_a_no_op(m: LifeModel, ws: u128, dispatch: u64)
    requires
        !is_latest(m, ws, dispatch),
    ensures
        abandon(m, ws, dispatch) == (m, Seq::<Action>::empty()),
{
}

/// A cancel aimed at a run that is no longer the one in flight changes nothing.
pub proof fn law_stale_cancel_is_a_no_op(m: LifeModel, ws: u128, tag: u128)
    requires
        !(m.flights.contains_key(ws) && m.flights[ws].tag == tag),
    ensures
        cancel(m, ws, tag) == (m, Option::<Seq<Action>>::None),
{
}

/// Explains and statements never retire a snapshot: dispatching and settling one leaves every
/// workspace's snapshot, and every live snapshot, as it was.
pub proof fn law_statements_do_not_retire_snapshots(m: LifeModel, ws: u128, dispatch: u64, tag: u128)
    ensures
        begin_call(m, ws, dispatch, tag).0.owned == m.owned,
        begin_call(m, ws, dispatch, tag).0.live == m.live,
        forall|a: Action| #[trigger] begin_call(m, ws, dispatch, tag).1.contains(a) ==> !(a is Retire)
            || (m.flights.contains_key(ws) && m.flights[ws].snapshot == Some(a->snapshot)),
{
    let (m1, acts) = begin_call(m, ws, dispatch, tag);
    assert forall|a: Action| #[trigger] acts.contains(a) implies !(a is Retire) || (m.flights.contains_key(ws)
        && m.flights[ws].snapshot == Some(a->snapshot)) by {
        if m.flights.contains_key(ws) {
            let f = m.flights[ws];
            let k = choose|k: int| 0 <= k < acts.len() && acts[k] == a;
            if f.snapshot is Some {
                assert(k == 0 || k == 1);
            }
        }
    }
}

/// Dispatching a run retires the workspace's previous snapshot — at once when nobody holds
/// it, deferred when somebody does — and the workspace owns nothing until the new run
/// settles.
pub proof fn law_dispatch_retires_the_previous_snapshot(
    m: LifeModel,
    ws: u128,
    dispatch: u64,
    tag: u128,
    snapshot: u64,
)
    requires
        m.owned.contains_key(ws),
    ensures
        ({
            let old = m.owned[ws];
            let (m1, a) = begin_query(m, ws, dispatch, tag, snapshot);
            &&& !m1.owned.contains_key(ws)
            &&& m1.flights.contains_key(ws)
            &&& m1.flights[ws] == (Flight { dispatch, tag, snapshot: Some(snapshot) })
            &&& m.holds.contains_key(old) ==> m1.deferred.contains(old) && m1.live.contains(old)
                == m.live.contains(old)
            &&& !m.holds.contains_key(old) ==> !m1.live.contains(old) && a.contains(
                Action::Retire { snapshot: old },
            )
        }),
{
    let old = m.owned[ws];
    let (m0, a0) = drop_flight(m, ws);
    let (m1, a) = begin_query(m, ws, dispatch, tag, snapshot);
    if !m.holds.contains_key(old) {
        assert(a[a0.len() as int] == Action::Retire { snapshot: old });
    }
}

/// A run that settles as the latest hands its snapshot to the workspace, and that snapshot is
/// live to read.
pub proof fn law_delivered_snapshot_is_owned_and_live(
    m: LifeModel,
    ws: u128,
    dispatch: u64,
    snapshot: u64,
    out: u64,
)
    requires
        is_latest(m, ws, dispatch),
    ensures
        ({
            let (m1, verdict, a) = settle_query(m, ws, dispatch, snapshot, QueryEnd::Finished { snapshot: Some(out) });
            &&& verdict == Settled::Deliver
            &&& a == Seq::<Action>::empty()
            &&& m1.owned.contains_key(ws) && m1.owned[ws] == out
            &&& m1.live.contains(out)
            &&& !m1.flights.contains_key(ws)
        }),
{
}

/// Background work is counted, not tracked: starting and finishing one piece leaves the
/// count where it was.
pub proof fn law_background_is_balanced(m: LifeModel)
    requires
        m.background < usize::MAX,
    ensures
        background_down(background_up(m)) == m,
{
    assert(background_down(background_up(m)) =~= m);
}

/// A profile scan replaced by a re-scan settles as superseded, and the re-scan's entry stays.
pub proof fn law_rescan_supersedes_the_older_scan(m: LifeModel, key: Seq<char>, first: u64, second: u64)
    requires
        first != second,
    ensures
        ({
            let (m1, _) = begin_profile(m, key, first);
            let (m2, a2) = begin_profile(m1, key, second);
            let (m3, latest) = settle_profile(m2, key, first);
            &&& a2 == seq![Action::AbortProfile { dispatch: first }]
            &&& !latest
            &&& m3.scans.contains_key(key) && m3.scans[key] == second
        }),
{
}

} // verus!
