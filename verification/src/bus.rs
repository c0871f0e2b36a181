//! Keeps the latest snapshot, what led to it, and the differences that clients may have missed.

use crate::events::WindowFocusInfo;
use crate::grouping::kept;
use crate::records::{ActivityRecord, ActivityState};
use crate::snapshot::{
    build_delta, delta_of, empty_snapshot, monotonic_ns, ConfigSummary, Counts, DeltaReplayError,
    DeltaView, Item, Snapshot, SnapshotApp, SnapshotDelta, SnapshotView, StorageInfo,
    TitleRevisionRef, TitleRevisionView, Transition, TransitionView, DELTA_HISTORY_CAPACITY,
    HEALTH_CAPACITY, TITLE_REVISIONS_CAPACITY, TITLE_REVISIONS_SHOWN, TRANSITIONS_CAPACITY,
    TRANSITIONS_SHOWN,
};
use crate::time::Timestamp;
use crate::views::{lemma_take_all, lemma_take_succ, lemma_views_push, view_opt, views};
use vstd::prelude::*;

verus! {

/// A buffer after one more item: where it is full, the oldest item leaves first.
pub open spec fn pushed<V>(buf: Seq<V>, capacity: int, v: V) -> Seq<V> {
    if buf.len() >= capacity && buf.len() > 0 {
        buf.drop_first().push(v)
    } else {
        buf.push(v)
    }
}

/// The last `n` items, newest first.
pub open spec fn newest<V>(buf: Seq<V>, n: int) -> Seq<V> {
    buf.reverse().take(if n < buf.len() {
        n
    } else {
        buf.len() as int
    })
}

/// The difference is newer than the given number.
pub open spec fn newer_than(after_seq: u64) -> spec_fn(DeltaView) -> bool {
    |d: DeltaView| d.seq > after_seq
}

/// A client at the given number has missed a difference that is no longer kept.
pub open spec fn out_of_reach(history: Seq<DeltaView>, after_seq: u64) -> bool {
    history.len() > 0 && after_seq < history[0].seq - 1
}

/// The state of a bus.
#[verifier::ext_equal]
pub struct BusView {
    pub seq: u64,
    pub run_id: Option<Seq<char>>,
    pub snapshot: SnapshotView,
    pub health: Seq<Seq<char>>,
    pub transitions: Seq<TransitionView>,
    pub title_revisions: Seq<TitleRevisionView>,
    pub history: Seq<DeltaView>,
}

/// What is published, apart from what the bus adds.
#[verifier::ext_equal]
pub struct PublishedView {
    pub state: ActivityState,
    pub focus: Option<crate::events::FocusView>,
    pub last_transition: Option<TransitionView>,
    pub records: Seq<crate::records::RecordView>,
    pub counts: Counts,
    pub cadence_ms: u32,
    pub cadence_reason: Seq<char>,
    pub next_timeout: Option<Timestamp>,
    pub storage: StorageInfo,
    pub config: ConfigSummary,
    pub health: Seq<Seq<char>>,
    pub aggregated_apps: Seq<crate::snapshot::SnapshotAppView>,
}

/// What is published, apart from what the bus adds.
#[derive(Debug)]
pub struct Published {
    pub state: ActivityState,
    pub focus: Option<WindowFocusInfo>,
    pub last_transition: Option<Transition>,
    pub records: Vec<ActivityRecord>,
    pub counts: Counts,
    pub cadence_ms: u32,
    pub cadence_reason: String,
    pub next_timeout: Option<Timestamp>,
    pub storage: StorageInfo,
    pub config: ConfigSummary,
    pub health: Vec<String>,
    pub aggregated_apps: Vec<SnapshotApp>,
}

impl View for Published {
    type V = PublishedView;

    open spec fn view(&self) -> PublishedView {
        PublishedView {
            state: self.state,
            focus: view_opt(self.focus),
            last_transition: view_opt(self.last_transition),
            records: views(self.records@),
            counts: self.counts,
            cadence_ms: self.cadence_ms,
            cadence_reason: self.cadence_reason@,
            next_timeout: self.next_timeout,
            storage: self.storage,
            config: self.config,
            health: views(self.health@),
            aggregated_apps: views(self.aggregated_apps@),
        }
    }
}

impl BusView {
    /// The snapshot that the bus makes of what is published at `mono_ns`.
    pub open spec fn next_snapshot(self, p: PublishedView, mono_ns: u64) -> SnapshotView {
        SnapshotView {
            seq: (self.seq + 1) as u64,
            mono_ns,
            run_id: self.run_id,
            activity_state: p.state,
            focus: p.focus,
            last_transition: p.last_transition,
            transitions_recent: newest(self.transitions, TRANSITIONS_SHOWN as int),
            counts: p.counts,
            cadence_ms: p.cadence_ms,
            cadence_reason: p.cadence_reason,
            next_timeout: p.next_timeout,
            storage: p.storage,
            config: p.config,
            health: p.health,
            aggregated_apps: p.aggregated_apps,
            title_revisions_recent: newest(self.title_revisions, TITLE_REVISIONS_SHOWN as int),
            records: p.records,
        }
    }

    /// The difference that publishing gives.
    pub open spec fn next_delta(self, p: PublishedView, mono_ns: u64) -> Option<DeltaView> {
        delta_of(self.snapshot, self.next_snapshot(p, mono_ns))
    }

    /// The bus after publishing.
    pub open spec fn published(self, p: PublishedView, mono_ns: u64) -> BusView {
        BusView {
            seq: (self.seq + 1) as u64,
            snapshot: self.next_snapshot(p, mono_ns),
            history: match self.next_delta(p, mono_ns) {
                Some(d) => pushed(self.history, DELTA_HISTORY_CAPACITY as int, d),
                None => self.history,
            },
            ..self
        }
    }

    /// The numbers in the history grow, up to the number last published.
    pub open spec fn numbered(self) -> bool {
        &&& forall|i: int, j: int|
            0 <= i < j < self.history.len() ==> (#[trigger] self.history[i]).seq < (
            #[trigger] self.history[j]).seq
        &&& forall|i: int|
            0 <= i < self.history.len() ==> 0 < (#[trigger] self.history[i]).seq <= self.seq
    }
}

/// Adds an item; where the buffer is full, the oldest item leaves first.
fn push_bounded<T: Item>(buf: &mut Vec<T>, capacity: usize, item: T)
    ensures
        views(final(buf)@) == pushed(views(old(buf)@), capacity as int, item@),
{
    broadcast use lemma_views_push;

    let ghost was = views(buf@);
    if buf.len() >= capacity && buf.len() > 0 {
        let _oldest = buf.remove(0);
        assert(views(buf@) =~= was.drop_first());
    }
    buf.push(item);
}

/// Copies the last `limit` items, newest first.
fn copy_newest<T: Item>(buf: &Vec<T>, limit: usize) -> (r: Vec<T>)
    ensures
        views(r@) == newest(views(buf@), limit as int),
{
    broadcast use lemma_views_push;

    let ghost all = views(buf@).reverse();
    let n: usize = if limit < buf.len() {
        limit
    } else {
        buf.len()
    };
    let mut out: Vec<T> = Vec::new();
    let mut i: usize = 0;
    assert(views(out@) =~= all.take(0));
    while i < n
        invariant
            all == views(buf@).reverse(),
            i <= n <= buf.len(),
            views(out@) == all.take(i as int),
        decreases n - i,
    {
        proof {
            lemma_take_succ(all, i as int);
        }
        out.push(buf[buf.len() - 1 - i].copied());
        i += 1;
    }
    out
}

fn copy_all<T: Item>(buf: &Vec<T>) -> (r: Vec<T>)
    ensures
        views(r@) == views(buf@),
{
    broadcast use lemma_views_push;

    let ghost all = views(buf@);
    let mut out: Vec<T> = Vec::new();
    let mut i: usize = 0;
    assert(views(out@) =~= all.take(0));
    while i < buf.len()
        invariant
            all == views(buf@),
            i <= buf.len(),
            views(out@) == all.take(i as int),
        decreases buf.len() - i,
    {
        proof {
            lemma_take_succ(all, i as int);
        }
        out.push(buf[i].copied());
        i += 1;
    }
    proof {
        lemma_take_all(all);
    }
    out
}

/// Holds what is published.
pub struct SnapshotBus {
    seq: u64,
    run_id: Option<String>,
    snapshot: Snapshot,
    health: Vec<String>,
    transitions: Vec<Transition>,
    title_revisions: Vec<TitleRevisionRef>,
    history: Vec<SnapshotDelta>,
}

impl View for SnapshotBus {
    type V = BusView;

    closed spec fn view(&self) -> BusView {
        BusView {
            seq: self.seq,
            run_id: view_opt(self.run_id),
            snapshot: self.snapshot@,
            health: views(self.health@),
            transitions: views(self.transitions@),
            title_revisions: views(self.title_revisions@),
            history: views(self.history@),
        }
    }
}

/// A bus on which nothing was published.
pub open spec fn quiet_bus(run_id: Option<Seq<char>>, mono_ns: u64) -> BusView {
    BusView {
        seq: 0,
        run_id,
        snapshot: empty_snapshot(mono_ns),
        health: Seq::empty(),
        transitions: Seq::empty(),
        title_revisions: Seq::empty(),
        history: Seq::empty(),
    }
}

impl SnapshotBus {
    pub fn new() -> (r: Self)
        ensures
            r@ == quiet_bus(None, r@.snapshot.mono_ns),
    {
        let r = SnapshotBus {
            seq: 0,
            run_id: None,
            snapshot: Snapshot::empty(),
            health: Vec::new(),
            transitions: Vec::new(),
            title_revisions: Vec::new(),
            history: Vec::new(),
        };
        assert(r@ =~= quiet_bus(None, r@.snapshot.mono_ns));
        r
    }

    pub fn new_with_run_id(run_id: &str) -> (r: Self)
        ensures
            r@ == quiet_bus(Some(run_id@), r@.snapshot.mono_ns),
    {
        let mut bus = Self::new();
        bus.run_id = Some(run_id.to_string());
        bus
    }

    pub fn run_id(&self) -> (r: Option<&str>)
        ensures
            match r {
                Some(id) => self@.run_id == Some(id@),
                None => self@.run_id is None,
            },
    {
        match &self.run_id {
            Some(id) => Some(id.as_str()),
            None => None,
        }
    }

    /// Publishes a snapshot when the clock reads `mono_ns`, and returns what changed.
    pub fn publish_at(&mut self, p: Published, mono_ns: u64) -> (r: Option<SnapshotDelta>)
        requires
            old(self)@.seq < u64::MAX,
        ensures
            final(self)@ == old(self)@.published(p@, mono_ns),
            view_opt(r) == old(self)@.next_delta(p@, mono_ns),
    {
        let seq: u64 = self.seq + 1;
        let snap = Snapshot {
            seq,
            mono_ns,
            run_id: self.run_id.clone(),
            activity_state: p.state,
            focus: p.focus,
            last_transition: p.last_transition,
            transitions_recent: self.recent_transitions(TRANSITIONS_SHOWN),
            counts: p.counts,
            cadence_ms: p.cadence_ms,
            cadence_reason: p.cadence_reason,
            next_timeout: p.next_timeout,
            storage: p.storage,
            config: p.config,
            health: p.health,
            aggregated_apps: p.aggregated_apps,
            title_revisions_recent: self.recent_title_revisions(TITLE_REVISIONS_SHOWN),
            records: p.records,
        };
        assert(snap@ =~= self@.next_snapshot(p@, mono_ns));
        let delta = build_delta(&self.snapshot, &snap);
        self.seq = seq;
        self.snapshot = snap;
        match &delta {
            Some(d) => {
                self.record_delta(d.clone());
            },
            None => {},
        }
        delta
    }

    /// Publishes a snapshot and returns what changed.
    pub fn publish_basic(
        &mut self,
        state: ActivityState,
        focus: Option<WindowFocusInfo>,
        last_transition: Option<Transition>,
        records: Vec<ActivityRecord>,
        counts: Counts,
        cadence_ms: u32,
        cadence_reason: String,
        next_timeout: Option<Timestamp>,
        storage: StorageInfo,
        config: ConfigSummary,
        health: Vec<String>,
        aggregated_apps: Vec<SnapshotApp>,
    ) -> (r: Option<SnapshotDelta>)
        requires
            old(self)@.seq < u64::MAX,
        ensures
            ({
                let p = PublishedView {
                    state,
                    focus: view_opt(focus),
                    last_transition: view_opt(last_transition),
                    records: views(records@),
                    counts,
                    cadence_ms,
                    cadence_reason: cadence_reason@,
                    next_timeout,
                    storage,
                    config,
                    health: views(health@),
                    aggregated_apps: views(aggregated_apps@),
                };
                let mono_ns = final(self)@.snapshot.mono_ns;
                &&& final(self)@ == old(self)@.published(p, mono_ns)
                &&& view_opt(r) == old(self)@.next_delta(p, mono_ns)
            }),
    {
        self.publish_at(
            Published {
                state,
                focus,
                last_transition,
                records,
                counts,
                cadence_ms,
                cadence_reason,
                next_timeout,
                storage,
                config,
                health,
                aggregated_apps,
            },
            monotonic_ns(),
        )
    }

    pub fn push_transition(&mut self, t: Transition)
        ensures
            final(self)@ == (BusView {
                transitions: pushed(old(self)@.transitions, TRANSITIONS_CAPACITY as int, t@),
                ..old(self)@
            }),
    {
        push_bounded(&mut self.transitions, TRANSITIONS_CAPACITY, t);
    }

    /// The last transitions, newest first.
    pub fn recent_transitions(&self, limit: usize) -> (r: Vec<Transition>)
        ensures
            views(r@) == newest(self@.transitions, limit as int),
    {
        copy_newest(&self.transitions, limit)
    }

    pub fn push_title_revision(&mut self, revision: TitleRevisionRef)
        ensures
            final(self)@ == (BusView {
                title_revisions: pushed(
                    old(self)@.title_revisions,
                    TITLE_REVISIONS_CAPACITY as int,
                    revision@,
                ),
                ..old(self)@
            }),
    {
        push_bounded(&mut self.title_revisions, TITLE_REVISIONS_CAPACITY, revision);
    }

    /// The last changes of title, newest first.
    pub fn recent_title_revisions(&self, limit: usize) -> (r: Vec<TitleRevisionRef>)
        ensures
            views(r@) == newest(self@.title_revisions, limit as int),
    {
        copy_newest(&self.title_revisions, limit)
    }

    pub fn push_health(&mut self, msg: String)
        ensures
            final(self)@ == (BusView {
                health: pushed(old(self)@.health, HEALTH_CAPACITY as int, msg@),
                ..old(self)@
            }),
    {
        push_bounded(&mut self.health, HEALTH_CAPACITY, msg);
    }

    /// The health messages, oldest first.
    pub fn current_health(&self) -> (r: Vec<String>)
        ensures
            views(r@) == self@.health,
    {
        copy_all(&self.health)
    }

    /// The snapshot published last.
    pub fn snapshot(&self) -> (r: &Snapshot)
        ensures
            r@ == self@.snapshot,
    {
        &self.snapshot
    }

    /// The differences that a client at `after_seq` has missed, oldest first.
    pub fn watch_deltas_after(&self, after_seq: u64) -> (r: Result<
        Vec<SnapshotDelta>,
        DeltaReplayError,
    >)
        ensures
            match r {
                Ok(replay) => !out_of_reach(self@.history, after_seq) && views(replay@) == kept(
                    self@.history,
                    newer_than(after_seq),
                ),
                Err(e) => out_of_reach(self@.history, after_seq) && e
                    == DeltaReplayError::AfterSeqTooOld,
            },
    {
        broadcast use lemma_views_push;

        let ghost all = views(self.history@);
        if self.history.len() > 0 {
            if after_seq < self.history[0].seq.saturating_sub(1) {
                return Err(DeltaReplayError::AfterSeqTooOld);
            }
        }
        let mut replay: Vec<SnapshotDelta> = Vec::new();
        let mut i: usize = 0;
        assert(views(replay@) =~= kept(all.take(0), newer_than(after_seq)));
        while i < self.history.len()
            invariant
                all == views(self.history@),
                i <= self.history.len(),
                views(replay@) == kept(all.take(i as int), newer_than(after_seq)),
            decreases self.history.len() - i,
        {
            proof {
                lemma_take_succ(all, i as int);
            }
            if self.history[i].seq > after_seq {
                replay.push(self.history[i].clone());
            }
            i += 1;
        }
        proof {
            lemma_take_all(all);
        }
        Ok(replay)
    }

    fn record_delta(&mut self, delta: SnapshotDelta)
        ensures
            final(self)@ == (BusView {
                history: pushed(old(self)@.history, DELTA_HISTORY_CAPACITY as int, delta@),
                ..old(self)@
            }),
    {
        push_bounded(&mut self.history, DELTA_HISTORY_CAPACITY, delta);
    }
}

/// The last `n` items.
pub open spec fn tail<V>(s: Seq<V>, n: int) -> Seq<V> {
    if s.len() > n {
        s.skip(s.len() - n)
    } else {
        s
    }
}

/// A buffer that holds the last items of all that were added still does after one more.
pub proof fn law_buffer_holds_the_last<V>(all: Seq<V>, capacity: int, v: V)
    requires
        capacity > 0,
    ensures
        pushed(tail(all, capacity), capacity, v) == tail(all.push(v), capacity),
{
    assert(pushed(tail(all, capacity), capacity, v) =~= tail(all.push(v), capacity));
}

/// Publishing numbers the snapshot one higher and keeps the numbers of the history in order.
pub proof fn law_publishing_counts_up(b: BusView, p: PublishedView, mono_ns: u64)
    requires
        b.seq < u64::MAX,
        b.numbered(),
    ensures
        b.published(p, mono_ns).seq == b.seq + 1,
        b.published(p, mono_ns).snapshot.seq == b.seq + 1,
        b.published(p, mono_ns).numbered(),
{
    let after = b.published(p, mono_ns);
    match b.next_delta(p, mono_ns) {
        Some(d) => {
            let kept_back = if b.history.len() >= DELTA_HISTORY_CAPACITY {
                b.history.drop_first()
            } else {
                b.history
            };
            assert(after.history =~= kept_back.push(d));
            assert(d.seq == b.seq + 1);
            assert forall|i: int, j: int| 0 <= i < j < after.history.len() implies (
            #[trigger] after.history[i]).seq < (#[trigger] after.history[j]).seq by {
                let o: int = if b.history.len() >= DELTA_HISTORY_CAPACITY {
                    1
                } else {
                    0
                };
                assert(after.history[i] == b.history[i + o]);
                if j < kept_back.len() {
                    assert(after.history[j] == b.history[j + o]);
                }
            }
        },
        None => {},
    }
}

/// A client that is not refused misses nothing: of all differences ever recorded, those newer
/// than the client's number are all in the history.
pub proof fn law_replay_misses_nothing(all: Seq<DeltaView>, after_seq: u64)
    requires
        forall|i: int, j: int|
            0 <= i < j < all.len() ==> (#[trigger] all[i]).seq < (#[trigger] all[j]).seq,
        !out_of_reach(tail(all, DELTA_HISTORY_CAPACITY as int), after_seq),
    ensures
        kept(tail(all, DELTA_HISTORY_CAPACITY as int), newer_than(after_seq)) == kept(
            all,
            newer_than(after_seq),
        ),
{
    let n = DELTA_HISTORY_CAPACITY as int;
    if all.len() > n {
        let gone = all.take(all.len() - n);
        let history = all.skip(all.len() - n);
        assert(all =~= gone + history);
        assert forall|i: int| 0 <= i < gone.len() implies !newer_than(after_seq)(
            #[trigger] gone[i],
        ) by {
            assert(gone[i] == all[i]);
            assert(history[0] == all[all.len() - n]);
        }
        lemma_kept_split(gone, history, newer_than(after_seq));
        lemma_kept_nothing(gone, newer_than(after_seq));
        assert(kept(gone, newer_than(after_seq)) + kept(history, newer_than(after_seq)) =~= kept(
            history,
            newer_than(after_seq),
        ));
    }
}

proof fn lemma_kept_split<T>(a: Seq<T>, b: Seq<T>, keep: spec_fn(T) -> bool)
    ensures
        kept(a + b, keep) == kept(a, keep) + kept(b, keep),
    decreases b.len(),
{
    if b.len() == 0 {
        assert(a + b =~= a);
        assert(kept(a, keep) + kept(b, keep) =~= kept(a, keep));
    } else {
        assert((a + b).drop_last() =~= a + b.drop_last());
        lemma_kept_split(a, b.drop_last(), keep);
        assert(kept(a + b, keep) =~= kept(a, keep) + kept(b, keep));
    }
}

proof fn lemma_kept_nothing<T>(s: Seq<T>, keep: spec_fn(T) -> bool)
    requires
        forall|i: int| 0 <= i < s.len() ==> !keep(#[trigger] s[i]),
    ensures
        kept(s, keep).len() == 0,
    decreases s.len(),
{
    if s.len() > 0 {
        assert(!keep(s[s.len() - 1]));
        assert forall|i: int| 0 <= i < s.drop_last().len() implies !keep(
            #[trigger] s.drop_last()[i],
        ) by {
            assert(s.drop_last()[i] == s[i]);
        }
        lemma_kept_nothing(s.drop_last(), keep);
    }
}

/// The newest items come first: as many as are asked for and there are, each once.
pub proof fn law_newest_come_first<V>(buf: Seq<V>, n: int)
    requires
        n >= 0,
    ensures
        newest(buf, n).len() == if n < buf.len() {
            n
        } else {
            buf.len() as int
        },
        forall|i: int|
            0 <= i < newest(buf, n).len() ==> #[trigger] newest(buf, n)[i] == buf[buf.len() - 1 - i],
{
}

/// A snapshot shows what was published, unchanged, and the newest transitions and titles that the
/// bus was told of; nothing else of the bus changes but its number and its history.
pub proof fn law_snapshot_shows_what_was_published(b: BusView, p: PublishedView, mono_ns: u64)
    requires
        b.seq < u64::MAX,
    ensures
        ({
            let after = b.published(p, mono_ns);
            let s = after.snapshot;
            &&& s.mono_ns == mono_ns
            &&& s.run_id == b.run_id
            &&& s.activity_state == p.state
            &&& s.focus == p.focus
            &&& s.last_transition == p.last_transition
            &&& s.records == p.records
            &&& s.counts == p.counts
            &&& s.cadence_ms == p.cadence_ms
            &&& s.cadence_reason == p.cadence_reason
            &&& s.next_timeout == p.next_timeout
            &&& s.storage == p.storage
            &&& s.config == p.config
            &&& s.health == p.health
            &&& s.aggregated_apps == p.aggregated_apps
            &&& s.transitions_recent.len() == (if b.transitions.len() < 5 {
                b.transitions.len() as int
            } else {
                5
            })
            &&& forall|i: int|
                0 <= i < s.transitions_recent.len() ==> #[trigger] s.transitions_recent[i]
                    == b.transitions[b.transitions.len() - 1 - i]
            &&& s.title_revisions_recent.len() == (if b.title_revisions.len() < 64 {
                b.title_revisions.len() as int
            } else {
                64
            })
            &&& forall|i: int|
                0 <= i < s.title_revisions_recent.len() ==> #[trigger] s.title_revisions_recent[i]
                    == b.title_revisions[b.title_revisions.len() - 1 - i]
            &&& after.transitions == b.transitions
            &&& after.title_revisions == b.title_revisions
            &&& after.health == b.health
            &&& after.run_id == b.run_id
        }),
{
}

/// A difference is remembered as it was reported, behind those before it, and where nothing was
/// reported nothing is.
pub proof fn law_reported_difference_is_remembered(b: BusView, p: PublishedView, mono_ns: u64)
    requires
        b.seq < u64::MAX,
    ensures
        ({
            let told = delta_of(b.snapshot, b.published(p, mono_ns).snapshot);
            let history = b.published(p, mono_ns).history;
            &&& told is None ==> history == b.history
            &&& told is Some ==> history.len() > 0 && history.last() == told->0
        }),
{
}

/// A client is refused exactly where a difference between its number and the first that is kept may
/// be gone, and is else given exactly those that are newer than its number, in order.
pub proof fn law_client_is_given_what_is_newer(history: Seq<DeltaView>, after_seq: u64)
    ensures
        out_of_reach(history, after_seq) <==> history.len() > 0 && after_seq + 1 < history[0].seq,
        kept(history, newer_than(after_seq)) == history.filter(
            |d: DeltaView| d.seq > after_seq,
        ),
    decreases history.len(),
{
    let newer = |d: DeltaView| d.seq > after_seq;
    reveal(Seq::filter);
    if history.len() > 0 {
        law_client_is_given_what_is_newer(history.drop_last(), after_seq);
    } else {
        assert(kept(history, newer_than(after_seq)) =~= history.filter(newer));
    }
}

} // verus!
