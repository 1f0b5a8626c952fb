//! The dispatcher: it owns the stores and routes actions to them, a tick at a
//! time.

use crate::corpus::WordData;
use crate::store::{Action, Store, StoreState};
use std::collections::VecDeque;
use vstd::prelude::*;

verus! {

/// The models of a sequence of stores.
pub open spec fn states_of(stores: Seq<Store>) -> Seq<StoreState> {
    Seq::new(stores.len(), |k: int| stores[k]@)
}

/// What the first `count` stores emit on `action`, in registration order,
/// where `samples` holds for each store what it has drawn.
pub open spec fn emitted_by(
    stores: Seq<StoreState>,
    action: Action,
    now: int,
    samples: Seq<Seq<WordData>>,
    count: int,
) -> Seq<Action>
    decreases count,
{
    if count <= 0 {
        Seq::empty()
    } else {
        emitted_by(stores, action, now, samples, count - 1) + stores[count - 1].step(
            action,
            now,
            samples[count - 1],
        ).1
    }
}

/// The stores after each has taken `action`, and all that they emit.
pub open spec fn deliver(
    stores: Seq<StoreState>,
    action: Action,
    now: int,
    samples: Seq<Seq<WordData>>,
) -> (Seq<StoreState>, Seq<Action>) {
    (
        Seq::new(stores.len(), |k: int| stores[k].step(action, now, samples[k]).0),
        emitted_by(stores, action, now, samples, stores.len() as int),
    )
}

/// The stores after the first `count` of `actions`, each delivered to every
/// store before the next, and all that the stores emit on the way. The
/// emitted actions are collected and delivered to nobody.
pub open spec fn tick(
    stores: Seq<StoreState>,
    actions: Seq<Action>,
    now: int,
    samples: Seq<Seq<Seq<WordData>>>,
    count: int,
) -> (Seq<StoreState>, Seq<Action>)
    decreases count,
{
    if count <= 0 {
        (stores, Seq::empty())
    } else {
        let before = tick(stores, actions, now, samples, count - 1);
        let last = deliver(before.0, actions[count - 1], now, samples[count - 1]);
        (last.0, before.1 + last.1)
    }
}

/// Whether `samples` holds, for one action, what each store can draw on it.
pub open spec fn drawn_for(
    stores: Seq<StoreState>,
    action: Action,
    samples: Seq<Seq<WordData>>,
) -> bool {
    &&& samples.len() == stores.len()
    &&& forall|k: int| 0 <= k < stores.len() ==> stores[k].draws(action, #[trigger] samples[k])
}

/// Whether `samples` holds, for every action and every store, what the store
/// can draw on the action.
pub open spec fn drawn(
    stores: Seq<StoreState>,
    actions: Seq<Action>,
    samples: Seq<Seq<Seq<WordData>>>,
) -> bool {
    &&& samples.len() == actions.len()
    &&& forall|j: int|
        0 <= j < actions.len() ==> drawn_for(stores, actions[j], #[trigger] samples[j])
}

/// What the store at `k` has drawn on each action of a tick.
pub open spec fn picks_of(samples: Seq<Seq<Seq<WordData>>>, k: int) -> Seq<Seq<WordData>> {
    Seq::new(samples.len(), |j: int| samples[j][k])
}

/// What the first `count` stores emit depends on the samples of those stores
/// alone.
proof fn lemma_emitted_prefix(
    stores: Seq<StoreState>,
    action: Action,
    now: int,
    a: Seq<Seq<WordData>>,
    b: Seq<Seq<WordData>>,
    count: int,
)
    requires
        forall|k: int| 0 <= k < count ==> a[k] == b[k],
    ensures
        emitted_by(stores, action, now, a, count) == emitted_by(stores, action, now, b, count),
    decreases count,
{
    if count > 0 {
        lemma_emitted_prefix(stores, action, now, a, b, count - 1);
    }
}

/// The first `count` actions of a tick depend on the samples of those
/// actions alone.
proof fn lemma_tick_prefix(
    stores: Seq<StoreState>,
    actions: Seq<Action>,
    now: int,
    a: Seq<Seq<Seq<WordData>>>,
    b: Seq<Seq<Seq<WordData>>>,
    count: int,
)
    requires
        forall|j: int| 0 <= j < count ==> a[j] == b[j],
    ensures
        tick(stores, actions, now, a, count) == tick(stores, actions, now, b, count),
    decreases count,
{
    if count > 0 {
        lemma_tick_prefix(stores, actions, now, a, b, count - 1);
    }
}

/// In a tick every store takes the drained actions, in their order, and
/// nothing else: an action emitted during the tick reaches no store in it.
pub proof fn lemma_tick_delivers_drained_only(
    stores: Seq<StoreState>,
    actions: Seq<Action>,
    now: int,
    samples: Seq<Seq<Seq<WordData>>>,
    count: int,
    k: int,
)
    requires
        0 <= count <= actions.len(),
        samples.len() == actions.len(),
        0 <= k < stores.len(),
    ensures
        tick(stores, actions, now, samples, count).0.len() == stores.len(),
        tick(stores, actions, now, samples, count).0[k] == stores[k].run(
            actions,
            now,
            picks_of(samples, k),
            count,
        ),
    decreases count,
{
    if count > 0 {
        lemma_tick_delivers_drained_only(stores, actions, now, samples, count - 1, k);
    }
}

/// What a tick emits is delivered in the tick after it and only there: over
/// two ticks in a row every store takes the first queue, then what the
/// first tick emitted, and what the second tick emitted it has not taken.
pub proof fn lemma_emitted_wait_one_tick(
    stores: Seq<StoreState>,
    queue: Seq<Action>,
    first_now: int,
    first_samples: Seq<Seq<Seq<WordData>>>,
    second_now: int,
    second_samples: Seq<Seq<Seq<WordData>>>,
    k: int,
)
    requires
        first_samples.len() == queue.len(),
        second_samples.len() == tick(
            stores,
            queue,
            first_now,
            first_samples,
            queue.len() as int,
        ).1.len(),
        0 <= k < stores.len(),
    ensures
        ({
            let first = tick(stores, queue, first_now, first_samples, queue.len() as int);
            let second = tick(first.0, first.1, second_now, second_samples, first.1.len() as int);
            &&& first.0[k] == stores[k].run(
                queue,
                first_now,
                picks_of(first_samples, k),
                queue.len() as int,
            )
            &&& second.0[k] == first.0[k].run(
                first.1,
                second_now,
                picks_of(second_samples, k),
                first.1.len() as int,
            )
        }),
{
    let first = tick(stores, queue, first_now, first_samples, queue.len() as int);
    lemma_tick_delivers_drained_only(
        stores,
        queue,
        first_now,
        first_samples,
        queue.len() as int,
        k,
    );
    lemma_tick_delivers_drained_only(
        first.0,
        first.1,
        second_now,
        second_samples,
        first.1.len() as int,
        k,
    );
}

/// A tick on an empty queue changes no store and emits nothing.
pub proof fn lemma_idle_tick(stores: Seq<StoreState>, now: int, samples: Seq<Seq<Seq<WordData>>>)
    ensures
        tick(stores, Seq::empty(), now, samples, 0) == (stores, Seq::<Action>::empty()),
{
}

/// The mathematical model of a [`Dispatcher`].
pub struct DispatcherState {
    /// The stores, in the order of their registration.
    pub stores: Seq<StoreState>,
    /// The actions that wait for the next tick.
    pub queue: Seq<Action>,
}

/// A synchronous action bus: it owns the stores and the queue of pending
/// actions.
#[derive(Debug)]
pub struct Dispatcher {
    stores: Vec<Store>,
    queue: VecDeque<Action>,
}

impl View for Dispatcher {
    type V = DispatcherState;

    closed spec fn view(&self) -> DispatcherState {
        DispatcherState { stores: states_of(self.stores@), queue: self.queue@ }
    }
}

impl Default for Dispatcher {
    fn default() -> (dispatcher: Dispatcher)
        ensures
            dispatcher@.stores == Seq::<StoreState>::empty(),
            dispatcher@.queue == Seq::<Action>::empty(),
    {
        Dispatcher::new()
    }
}

impl Dispatcher {
    /// A dispatcher without stores and without pending actions.
    pub fn new() -> (dispatcher: Dispatcher)
        ensures
            dispatcher@.stores == Seq::<StoreState>::empty(),
            dispatcher@.queue == Seq::<Action>::empty(),
    {
        let dispatcher = Dispatcher { stores: Vec::new(), queue: VecDeque::new() };
        assert(dispatcher@.stores =~= Seq::empty());
        dispatcher
    }

    /// Takes ownership of `store` and puts it behind the stores already
    /// registered. The handle gives read access through [`Dispatcher::store`].
    pub fn register(&mut self, store: Store) -> (handle: usize)
        ensures
            handle == old(self)@.stores.len(),
            final(self)@.stores == old(self)@.stores.push(store@),
            final(self)@.queue == old(self)@.queue,
    {
        let handle: usize = self.stores.len();
        self.stores.push(store);
        assert(self@.stores =~= old(self)@.stores.push(store@));
        handle
    }

    /// The store behind `handle`, if there is one.
    pub fn store(&self, handle: usize) -> (store: Option<&Store>)
        ensures
            match store {
                Some(found) => handle < self@.stores.len() && found@ == self@.stores[handle as int],
                None => handle >= self@.stores.len(),
            },
    {
        if handle < self.stores.len() {
            Some(&self.stores[handle])
        } else {
            None
        }
    }

    /// The number of actions that wait for the next tick.
    pub fn pending(&self) -> (count: usize)
        ensures
            count == self@.queue.len(),
    {
        self.queue.len()
    }

    /// The number of stores registered.
    pub fn store_count(&self) -> (count: usize)
        ensures
            count == self@.stores.len(),
    {
        self.stores.len()
    }

    /// Puts `action` at the end of the queue. No store sees it before the next
    /// tick.
    pub fn action(&mut self, action: Action)
        ensures
            final(self)@.stores == old(self)@.stores,
            final(self)@.queue == old(self)@.queue.push(action),
    {
        self.queue.push_back(action);
    }

    /// Runs one tick: drains the queue and hands each drained action to every
    /// store, in registration order, before the next. What the stores emit
    /// meanwhile is collected apart and becomes the queue for the next tick,
    /// so no store sees in this tick an action that was emitted in it.
    ///
    /// The stores' new states and the new queue are those of [`tick`] on the
    /// old stores and the old queue, for samples that the session stores were
    /// free to draw.
    pub fn update(&mut self, now: u64)
        ensures
            exists|samples: Seq<Seq<Seq<WordData>>>| #[trigger]
                drawn(old(self)@.stores, old(self)@.queue, samples) && final(self)@.stores == tick(
                    old(self)@.stores,
                    old(self)@.queue,
                    now as int,
                    samples,
                    old(self)@.queue.len() as int,
                ).0 && final(self)@.queue == tick(
                    old(self)@.stores,
                    old(self)@.queue,
                    now as int,
                    samples,
                    old(self)@.queue.len() as int,
                ).1,
    {
        let ghost first = self@.stores;
        let ghost actions = self@.queue;
        let mut drained: VecDeque<Action> = VecDeque::new();
        core::mem::swap(&mut drained, &mut self.queue);
        let mut out: VecDeque<Action> = VecDeque::new();
        let ghost mut samples: Seq<Seq<Seq<WordData>>> = Seq::empty();
        let ghost mut done: int = 0;
        assert(drained@ =~= actions.skip(0));
        while drained.len() > 0
            invariant
                0 <= done <= actions.len(),
                drained@ == actions.skip(done),
                samples.len() == done,
                self.stores@.len() == first.len(),
                forall|j: int|
                    0 <= j < done ==> drawn_for(first, actions[j], #[trigger] samples[j]),
                forall|k: int|
                    0 <= k < first.len() ==> (#[trigger] first[k]).akin(self.stores@[k]@),
                states_of(self.stores@) == tick(first, actions, now as int, samples, done).0,
                out@ == tick(first, actions, now as int, samples, done).1,
            decreases drained.len(),
        {
            let ghost mid = states_of(self.stores@);
            let ghost head = out@;
            let action = match drained.pop_front() {
                Some(action) => action,
                None => {
                    assert(false);
                    Action::RequestExit
                },
            };
            assert(action == actions[done]);
            assert(drained@ =~= actions.skip(done + 1));
            let ghost mut row: Seq<Seq<WordData>> = Seq::empty();
            let mut k: usize = 0;
            assert(out@ =~= head + emitted_by(mid, action, now as int, row, 0));
            while k < self.stores.len()
                invariant
                    k <= self.stores@.len(),
                    self.stores@.len() == mid.len(),
                    mid.len() == first.len(),
                    row.len() == k,
                    forall|i: int| 0 <= i < first.len() ==> (#[trigger] first[i]).akin(mid[i]),
                    forall|i: int|
                        0 <= i < k ==> (#[trigger] self.stores@[i])@ == mid[i].step(
                            action,
                            now as int,
                            row[i],
                        ).0 && mid[i].draws(action, row[i]),
                    forall|i: int| k <= i < mid.len() ==> (#[trigger] self.stores@[i])@ == mid[i],
                    out@ == head + emitted_by(mid, action, now as int, row, k as int),
                decreases self.stores@.len() - k,
            {
                let ghost before = self.stores@[k as int]@;
                let ghost queued = out@;
                let ghost earlier = row;
                assert(before == mid[k as int]);
                self.stores[k].update(&action, now, &mut out);
                proof {
                    let sample = choose|sample: Seq<WordData>| #[trigger]
                        before.draws(action, sample) && self.stores@[k as int]@ == before.step(
                            action,
                            now as int,
                            sample,
                        ).0 && out@ == queued + before.step(action, now as int, sample).1;
                    row = earlier.push(sample);
                    lemma_emitted_prefix(mid, action, now as int, earlier, row, k as int);
                    assert(out@ =~= head + emitted_by(mid, action, now as int, row, k + 1));
                }
                k += 1;
            }
            proof {
                let next = states_of(self.stores@);
                assert(next =~= deliver(mid, action, now as int, row).0);
                assert forall|i: int| 0 <= i < first.len() implies (#[trigger] first[i]).akin(
                    self.stores@[i]@,
                ) by {
                    assert(first[i].akin(mid[i]));
                    assert(self.stores@[i]@ == mid[i].step(action, now as int, row[i]).0);
                }
                assert(drawn_for(first, action, row)) by {
                    assert forall|i: int| 0 <= i < first.len() implies first[i].draws(
                        action,
                        #[trigger] row[i],
                    ) by {
                        assert(first[i].akin(mid[i]));
                        assert(mid[i].draws(action, row[i]));
                    }
                }
                let grown = samples.push(row);
                lemma_tick_prefix(first, actions, now as int, samples, grown, done);
                samples = grown;
                done = done + 1;
            }
        }
        self.queue = out;
        proof {
            assert(drained@.len() == 0);
            assert(done == actions.len());
            assert(drawn(first, actions, samples));
        }
    }
}

} // verus!
