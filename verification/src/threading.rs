//! Which threads the daemon has: planned, running or ended.

use crate::text::same_text;
use crate::views::{lemma_take_all, lemma_take_succ, lemma_views_push, views};
use vstd::prelude::*;

verus! {

#[derive(Clone, Copy, Debug, PartialEq, Eq, Structural)]
pub enum ThreadStatus {
    /// The thread is planned and was not started yet.
    Reserved,
    Running,
    /// The thread has ended, and its end was waited for.
    Joined,
    /// Nobody waits for the end of the thread any more.
    Detached,
    /// The thread panicked.
    Panicked,
}

/// A thread, by its name.
#[derive(Debug)]
pub struct ThreadSlot {
    pub name: String,
    pub status: ThreadStatus,
}

#[verifier::ext_equal]
pub struct SlotView {
    pub name: Seq<char>,
    pub status: ThreadStatus,
}

impl View for ThreadSlot {
    type V = SlotView;

    open spec fn view(&self) -> SlotView {
        SlotView { name: self.name@, status: self.status }
    }
}

impl Clone for ThreadSlot {
    fn clone(&self) -> (res: Self)
        ensures
            res@ == self@,
    {
        ThreadSlot { name: self.name.clone(), status: self.status }
    }
}

/// A thread that was started.
#[derive(Debug)]
pub struct ThreadHandle {
    name: String,
    id: usize,
}

impl ThreadHandle {
    /// The place of the thread in its registry.
    pub closed spec fn slot(&self) -> int {
        self.id as int
    }

    pub closed spec fn label(&self) -> Seq<char> {
        self.name@
    }

    pub fn name(&self) -> (r: &str)
        ensures
            r@ == self.label(),
    {
        self.name.as_str()
    }
}

/// All threads, in the order in which they were planned or started.
#[derive(Debug)]
pub struct ThreadRegistry {
    slots: Vec<ThreadSlot>,
}

impl View for ThreadRegistry {
    type V = Seq<SlotView>;

    closed spec fn view(&self) -> Seq<SlotView> {
        views(self.slots@)
    }
}

/// A thread of that name is known.
pub open spec fn knows(slots: Seq<SlotView>, name: Seq<char>) -> bool {
    exists|i: int| 0 <= i < slots.len() && (#[trigger] slots[i]).name == name
}

/// The threads with one more planned, unless one of its name is known.
pub open spec fn with_reserved(slots: Seq<SlotView>, name: Seq<char>) -> Seq<SlotView> {
    if knows(slots, name) {
        slots
    } else {
        slots.push(SlotView { name, status: ThreadStatus::Reserved })
    }
}

/// The threads with all of the names planned.
pub open spec fn with_all_reserved(slots: Seq<SlotView>, names: Seq<Seq<char>>) -> Seq<SlotView>
    decreases names.len(),
{
    if names.len() == 0 {
        slots
    } else {
        with_reserved(with_all_reserved(slots, names.drop_last()), names.last())
    }
}

/// The thread is planned under that name.
pub open spec fn waits_for(slot: SlotView, name: Seq<char>) -> bool {
    slot.name == name && slot.status == ThreadStatus::Reserved
}

/// Where a thread that is started goes: to the first place planned under its name, else to the end.
pub open spec fn place_for(slots: Seq<SlotView>, name: Seq<char>) -> int
    decreases slots.len(),
{
    if slots.len() == 0 || waits_for(slots[0], name) {
        0
    } else {
        1 + place_for(slots.drop_first(), name)
    }
}

/// The threads after one was started.
pub open spec fn with_started(slots: Seq<SlotView>, name: Seq<char>) -> Seq<SlotView> {
    let slot = SlotView { name, status: ThreadStatus::Running };
    let i = place_for(slots, name);
    if i < slots.len() {
        slots.update(i, slot)
    } else {
        slots.push(slot)
    }
}

/// The threads after the one at the given place has changed its status.
pub open spec fn with_status(slots: Seq<SlotView>, i: int, status: ThreadStatus) -> Seq<SlotView> {
    if 0 <= i < slots.len() {
        slots.update(i, SlotView { status, ..slots[i] })
    } else {
        slots
    }
}

/// The names of the threads that are running.
pub open spec fn running_names(slots: Seq<SlotView>) -> Seq<Seq<char>>
    decreases slots.len(),
{
    if slots.len() == 0 {
        Seq::empty()
    } else {
        let before = running_names(slots.drop_last());
        if slots.last().status == ThreadStatus::Running {
            before.push(slots.last().name)
        } else {
            before
        }
    }
}

proof fn lemma_place(slots: Seq<SlotView>, name: Seq<char>)
    ensures
        0 <= place_for(slots, name) <= slots.len(),
        place_for(slots, name) < slots.len() ==> waits_for(slots[place_for(slots, name)], name),
        forall|i: int| 0 <= i < place_for(slots, name) ==> !waits_for(#[trigger] slots[i], name),
    decreases slots.len(),
{
    if slots.len() > 0 && !waits_for(slots[0], name) {
        let rest = slots.drop_first();
        lemma_place(rest, name);
        assert forall|i: int| 0 <= i < place_for(slots, name) implies !waits_for(
            #[trigger] slots[i],
            name,
        ) by {
            if i > 0 {
                assert(rest[i - 1] == slots[i]);
            }
        }
    }
}

proof fn lemma_place_is(slots: Seq<SlotView>, name: Seq<char>, n: int)
    requires
        0 <= n <= slots.len(),
        n < slots.len() ==> waits_for(slots[n], name),
        forall|i: int| 0 <= i < n ==> !waits_for(#[trigger] slots[i], name),
    ensures
        place_for(slots, name) == n,
{
    lemma_place(slots, name);
    let m = place_for(slots, name);
    if m < n {
        assert(!waits_for(slots[m], name));
    } else if n < m {
        assert(!waits_for(slots[n], name));
    }
}

impl ThreadRegistry {
    pub fn new() -> (r: Self)
        ensures
            r@ == Seq::<SlotView>::empty(),
    {
        let r = ThreadRegistry { slots: Vec::new() };
        assert(r@ =~= Seq::empty());
        r
    }

    /// A registry with threads of the given names planned.
    pub fn with_slots(names: &[&str]) -> (r: Self)
        ensures
            r@ == with_all_reserved(Seq::empty(), views(names@)),
    {
        let mut r = ThreadRegistry::new();
        r.reserve_slots(names);
        r
    }

    /// Plans threads of the given names. A name that is known is passed over.
    pub fn reserve_slots(&mut self, names: &[&str])
        ensures
            final(self)@ == with_all_reserved(old(self)@, views(names@)),
    {
        let ghost before = self@;
        let ghost all = views(names@);
        let mut i: usize = 0;
        assert(all.take(0) =~= Seq::empty());
        while i < names.len()
            invariant
                all == views(names@),
                i <= names.len(),
                self@ == with_all_reserved(before, all.take(i as int)),
            decreases names.len() - i,
        {
            proof {
                lemma_take_succ(all, i as int);
            }
            assert(all[i as int] == names@[i as int]@);
            self.reserve(names[i]);
            i += 1;
        }
        proof {
            lemma_take_all(all);
        }
    }

    fn reserve(&mut self, name: &str)
        ensures
            final(self)@ == with_reserved(old(self)@, name@),
    {
        broadcast use lemma_views_push;

        let mut i: usize = 0;
        while i < self.slots.len()
            invariant
                i <= self.slots.len(),
                self@ == old(self)@,
                forall|j: int| 0 <= j < i ==> (#[trigger] self@[j]).name != name@,
            decreases self.slots.len() - i,
        {
            assert(self@[i as int].name == self.slots@[i as int].name@);
            if same_text(self.slots[i].name.as_str(), name) {
                return;
            }
            i += 1;
        }
        assert(!knows(self@, name@));
        self.slots.push(ThreadSlot { name: name.to_string(), status: ThreadStatus::Reserved });
    }

    /// Takes note that a thread was started.
    pub fn started(&mut self, name: &str) -> (r: ThreadHandle)
        ensures
            final(self)@ == with_started(old(self)@, name@),
            r.slot() == place_for(old(self)@, name@),
            r.label() == name@,
            0 <= r.slot() < final(self)@.len(),
            final(self)@[r.slot()] == (SlotView { name: name@, status: ThreadStatus::Running }),
    {
        broadcast use lemma_views_push;

        let ghost before = self@;
        proof {
            lemma_place(before, name@);
        }
        let mut i: usize = 0;
        while i < self.slots.len()
            invariant
                i <= self.slots.len(),
                self@ == before,
                before == old(self)@,
                forall|j: int| 0 <= j < i ==> !waits_for(#[trigger] before[j], name@),
            decreases self.slots.len() - i,
        {
            assert(before[i as int] == self.slots@[i as int]@);
            if self.slots[i].status == ThreadStatus::Reserved && same_text(
                self.slots[i].name.as_str(),
                name,
            ) {
                proof {
                    lemma_place_is(before, name@, i as int);
                }
                let slot = &mut self.slots[i];
                slot.status = ThreadStatus::Running;
                assert(self@ =~= with_started(before, name@));
                return ThreadHandle { name: name.to_string(), id: i };
            }
            i += 1;
        }
        proof {
            lemma_place_is(before, name@, i as int);
        }
        self.slots.push(ThreadSlot { name: name.to_string(), status: ThreadStatus::Running });
        ThreadHandle { name: name.to_string(), id: i }
    }

    fn set_status(&mut self, i: usize, status: ThreadStatus)
        ensures
            final(self)@ == with_status(old(self)@, i as int, status),
    {
        let ghost before = self@;
        if i < self.slots.len() {
            let slot = &mut self.slots[i];
            slot.status = status;
        }
        assert(self@ =~= with_status(before, i as int, status));
    }

    /// Takes note that a thread has ended.
    pub fn joined(&mut self, handle: ThreadHandle, panicked: bool)
        ensures
            final(self)@ == with_status(
                old(self)@,
                handle.slot(),
                if panicked {
                    ThreadStatus::Panicked
                } else {
                    ThreadStatus::Joined
                },
            ),
    {
        if panicked {
            self.set_status(handle.id, ThreadStatus::Panicked);
        } else {
            self.set_status(handle.id, ThreadStatus::Joined);
        }
    }

    /// Takes note that nobody waits for the end of a thread.
    pub fn detached(&mut self, handle: ThreadHandle)
        ensures
            final(self)@ == with_status(old(self)@, handle.slot(), ThreadStatus::Detached),
    {
        self.set_status(handle.id, ThreadStatus::Detached);
    }

    /// All threads, in the order in which they were planned or started.
    pub fn snapshot(&self) -> (r: Vec<ThreadSlot>)
        ensures
            views(r@) == self@,
    {
        let slots = self.slots.clone();
        assert(views(slots@) =~= views(self.slots@));
        slots
    }

    /// The names of the threads that are running.
    pub fn active_thread_names(&self) -> (r: Vec<String>)
        ensures
            views(r@) == running_names(self@),
    {
        broadcast use lemma_views_push;

        let mut out: Vec<String> = Vec::new();
        let mut i: usize = 0;
        assert(views(out@) =~= running_names(self@.take(0)));
        while i < self.slots.len()
            invariant
                i <= self.slots.len(),
                views(out@) == running_names(self@.take(i as int)),
            decreases self.slots.len() - i,
        {
            proof {
                lemma_take_succ(self@, i as int);
            }
            assert(self@[i as int] == self.slots@[i as int]@);
            if self.slots[i].status == ThreadStatus::Running {
                out.push(self.slots[i].name.clone());
            }
            i += 1;
        }
        proof {
            lemma_take_all(self@);
        }
        out
    }

    /// How many threads are running.
    pub fn active_count(&self) -> (r: usize)
        ensures
            r == running_names(self@).len(),
    {
        self.active_thread_names().len()
    }
}

/// A failure to start a thread, as it is reported.
pub fn spawn_failure(name: &str, reason: &str) -> (r: String)
    ensures
        r@ == "failed to spawn thread '"@ + name@ + "': "@ + reason@,
{
    let mut t = "failed to spawn thread '".to_string();
    crate::text::push_text(&mut t, name);
    crate::text::push_text(&mut t, "': ");
    crate::text::push_text(&mut t, reason);
    t
}

/// No two threads of the same name are planned when all were planned at once or after one
/// another, whatever names were repeated.
pub proof fn law_planned_names_are_distinct(slots: Seq<SlotView>, names: Seq<Seq<char>>)
    requires
        forall|i: int, j: int|
            0 <= i < j < slots.len() ==> (#[trigger] slots[i]).name != (#[trigger] slots[j]).name,
    ensures
        ({
            let all = with_all_reserved(slots, names);
            &&& forall|i: int, j: int|
                0 <= i < j < all.len() ==> (#[trigger] all[i]).name != (#[trigger] all[j]).name
            &&& forall|k: int| 0 <= k < names.len() ==> knows(all, #[trigger] names[k])
            &&& slots.len() <= all.len()
            &&& all.take(slots.len() as int) == slots
        }),
    decreases names.len(),
{
    let all = with_all_reserved(slots, names);
    if names.len() == 0 {
        lemma_take_all(slots);
    } else {
        let fewer = with_all_reserved(slots, names.drop_last());
        law_planned_names_are_distinct(slots, names.drop_last());
        if !knows(fewer, names.last()) {
            assert(all.last().name == names.last());
            assert forall|i: int| 0 <= i < fewer.len() implies (#[trigger] fewer[i]).name
                != names.last() by {}
        }
        assert forall|k: int| 0 <= k < names.len() implies knows(all, #[trigger] names[k]) by {
            if k < names.len() - 1 {
                assert(names.drop_last()[k] == names[k]);
                assert(knows(fewer, names[k]));
                let i = choose|i: int|
                    0 <= i < fewer.len() && (#[trigger] fewer[i]).name == names[k];
                assert(all[i] == fewer[i]);
            } else if !knows(fewer, names.last()) {
                assert(all[all.len() - 1].name == names.last());
            }
        }
        assert(all.take(slots.len() as int) =~= fewer.take(slots.len() as int));
    }
}

proof fn lemma_running_add(a: Seq<SlotView>, b: Seq<SlotView>)
    ensures
        running_names(a + b) == running_names(a) + running_names(b),
    decreases b.len(),
{
    if b.len() == 0 {
        assert(a + b =~= a);
        assert(running_names(a) + running_names(b) =~= running_names(a));
    } else {
        lemma_running_add(a, b.drop_last());
        assert((a + b).drop_last() =~= a + b.drop_last());
        assert(running_names(a + b) =~= running_names(a) + running_names(b));
    }
}

proof fn lemma_running_update(slots: Seq<SlotView>, i: int, s: SlotView)
    requires
        0 <= i < slots.len(),
    ensures
        running_names(slots.update(i, s)) == running_names(slots.take(i)) + running_names(seq![s])
            + running_names(slots.skip(i + 1)),
{
    lemma_running_add(slots.take(i), seq![s]);
    lemma_running_add(slots.take(i) + seq![s], slots.skip(i + 1));
    assert(slots.update(i, s) =~= slots.take(i) + seq![s] + slots.skip(i + 1));
}

proof fn lemma_running_one(s: SlotView)
    ensures
        running_names(seq![s]) == if s.status == ThreadStatus::Running {
            seq![s.name]
        } else {
            Seq::empty()
        },
{
    assert(seq![s].drop_last() =~= Seq::<SlotView>::empty());
    assert(running_names(Seq::<SlotView>::empty()) =~= Seq::empty());
    assert(running_names(seq![s]) =~= if s.status == ThreadStatus::Running {
        seq![s.name]
    } else {
        Seq::empty()
    });
}

/// A thread counts as running from its start until its end or until nobody waits for it: starting
/// one adds one, and what ends it takes one away.
pub proof fn law_running_threads_are_counted(
    slots: Seq<SlotView>,
    name: Seq<char>,
    status: ThreadStatus,
)
    requires
        status != ThreadStatus::Running,
    ensures
        running_names(with_started(slots, name)).len() == running_names(slots).len() + 1,
        running_names(
            with_status(with_started(slots, name), place_for(slots, name), status),
        ) == running_names(slots),
{
    let i = place_for(slots, name);
    let on = SlotView { name, status: ThreadStatus::Running };
    let off = SlotView { name, status };
    lemma_place(slots, name);
    lemma_running_one(on);
    lemma_running_one(off);
    let after = with_status(with_started(slots, name), i, status);
    if i < slots.len() {
        lemma_running_update(slots, i, on);
        lemma_running_update(slots, i, off);
        lemma_running_update(slots, i, slots[i]);
        lemma_running_one(slots[i]);
        assert(slots.update(i, slots[i]) =~= slots);
        assert(after =~= slots.update(i, off));
    } else {
        assert(with_started(slots, name).drop_last() =~= slots);
        assert(after.drop_last() =~= slots);
    }
}

/// Starting a thread takes the first place planned under its name, or a new one at the end, and
/// leaves all others as they are.
pub proof fn law_started_thread_takes_its_place(slots: Seq<SlotView>, name: Seq<char>)
    ensures
        ({
            let after = with_started(slots, name);
            let planned = exists|i: int|
                0 <= i < slots.len() && (#[trigger] slots[i]).name == name && slots[i].status
                    == ThreadStatus::Reserved;
            let i = place_for(slots, name);
            &&& 0 <= i < after.len()
            &&& after[i].name == name && after[i].status == ThreadStatus::Running
            &&& planned ==> after.len() == slots.len()
            &&& !planned ==> after.len() == slots.len() + 1 && i == slots.len()
            &&& forall|j: int| 0 <= j < slots.len() && j != i ==> #[trigger] after[j] == slots[j]
            &&& forall|j: int|
                0 <= j < i ==> !((#[trigger] slots[j]).name == name && slots[j].status
                    == ThreadStatus::Reserved)
        }),
{
    lemma_place(slots, name);
    let i = place_for(slots, name);
    assert forall|j: int| 0 <= j < i implies !((#[trigger] slots[j]).name == name
        && slots[j].status == ThreadStatus::Reserved) by {
        assert(!waits_for(slots[j], name));
    }
    if i < slots.len() {
        assert(slots[i].name == name && slots[i].status == ThreadStatus::Reserved);
    }
}

/// The names of the running threads are those of the threads that run, in order.
pub proof fn law_running_names_are_of_running_threads(slots: Seq<SlotView>)
    ensures
        ({
            let running = slots.filter(|s: SlotView| s.status == ThreadStatus::Running);
            &&& running_names(slots).len() == running.len()
            &&& forall|i: int|
                0 <= i < running.len() ==> #[trigger] running_names(slots)[i] == running[i].name
        }),
    decreases slots.len(),
{
    reveal(Seq::filter);
    if slots.len() > 0 {
        law_running_names_are_of_running_threads(slots.drop_last());
    }
}

/// A change of status changes the thread at its place alone, and not its name.
pub proof fn law_status_changes_one_thread(slots: Seq<SlotView>, i: int, status: ThreadStatus)
    requires
        0 <= i < slots.len(),
    ensures
        with_status(slots, i, status).len() == slots.len(),
        with_status(slots, i, status)[i].status == status,
        with_status(slots, i, status)[i].name == slots[i].name,
        forall|j: int|
            0 <= j < slots.len() && j != i ==> #[trigger] with_status(slots, i, status)[j]
                == slots[j],
{
}

} // verus!
