//! A bounded window of concurrent operations whose results leave in the
//! order of their inputs.
//!
//! One operation belongs to each input, numbered from 0. The window says
//! which operation may be launched next and which result may be emitted
//! next; running the operations is the caller's part. An operation keeps
//! its place in the window from its launch until its result is emitted, so
//! a result that is ready early waits for the ones before it.
use vstd::prelude::*;

verus! {

/// The window as a mathematical value.
pub struct FanOutView<T> {
    /// The number of inputs.
    pub total: nat,
    /// The most operations that may be in the window at a time.
    pub limit: nat,
    /// The number of results emitted so far.
    pub emitted: nat,
    /// The operations in the window, in input order, starting with the one
    /// that is emitted next: `None` while it runs, its result once it is
    /// complete.
    pub slots: Seq<Option<T>>,
}

/// The number of slots that still wait for a result.
pub open spec fn count_running<T>(slots: Seq<Option<T>>) -> nat
    decreases slots.len(),
{
    if slots.len() == 0 {
        0
    } else {
        count_running(slots.drop_last()) + if slots.last().is_none() {
            1nat
        } else {
            0nat
        }
    }
}

/// What can happen to a window: the caller asks for the next launch, an
/// operation brings its result, or the caller asks for the next result.
pub enum Event<T> {
    Launch,
    Complete { index: nat, outcome: T },
    Emit,
}

impl<T> FanOutView<T> {
    /// The window over `total` inputs before anything is launched.
    pub open spec fn start(total: nat, limit: nat) -> FanOutView<T> {
        FanOutView { total, limit, emitted: 0, slots: Seq::empty() }
    }

    /// The window after an event. An event that the window does not allow
    /// (a launch without room, a result for an operation that is not
    /// running, an emission before the result is there) changes nothing.
    pub open spec fn step(self, event: Event<T>) -> FanOutView<T> {
        match event {
            Event::Launch => if self.can_launch() {
                self.after_launch()
            } else {
                self
            },
            Event::Complete { index, outcome } => if self.is_running(index) {
                self.after_complete(index, outcome)
            } else {
                self
            },
            Event::Emit => if self.can_emit() {
                self.after_emit()
            } else {
                self
            },
        }
    }

    /// The window after a sequence of events.
    pub open spec fn run(self, events: Seq<Event<T>>) -> FanOutView<T>
        decreases events.len(),
    {
        if events.len() == 0 {
            self
        } else {
            self.run(events.drop_last()).step(events.last())
        }
    }

    /// The results that a sequence of events emits, in the order of their
    /// emission.
    pub open spec fn emitted_by(self, events: Seq<Event<T>>) -> Seq<T>
        decreases events.len(),
    {
        if events.len() == 0 {
            Seq::empty()
        } else {
            let before = self.run(events.drop_last());
            let so_far = self.emitted_by(events.drop_last());
            if events.last() is Emit && before.can_emit() {
                so_far.push(before.slots[0].unwrap())
            } else {
                so_far
            }
        }
    }

    /// The result that a sequence of events brought for an input while its
    /// operation was running, if it brought one.
    pub open spec fn brought(self, events: Seq<Event<T>>, input: nat) -> Option<T>
        decreases events.len(),
    {
        if events.len() == 0 {
            None
        } else {
            let before = self.run(events.drop_last());
            match events.last() {
                Event::Complete { index, outcome } => if index == input && before.is_running(index) {
                    Some(outcome)
                } else {
                    self.brought(events.drop_last(), input)
                },
                _ => self.brought(events.drop_last(), input),
            }
        }
    }

    /// What holds after every sequence of events on a fresh window.
    pub open spec fn trace_invariant(self, events: Seq<Event<T>>) -> bool {
        let now = self.run(events);
        let out = self.emitted_by(events);
        &&& now.wf()
        &&& now.total == self.total
        &&& now.limit == self.limit
        &&& out.len() == now.emitted
        &&& forall|k: nat| k < now.emitted ==> #[trigger] self.brought(events, k) == Some(out[k as int])
        &&& forall|i: nat| now.emitted <= i ==> #[trigger] self.brought(events, i) == now.result_of(i)
    }

    /// The number of operations launched so far.
    pub open spec fn launched(self) -> nat {
        self.emitted + self.slots.len()
    }

    /// The window is within its limit and within the inputs.
    pub open spec fn wf(self) -> bool {
        &&& self.slots.len() <= self.limit
        &&& self.launched() <= self.total
        &&& self.total <= usize::MAX
        &&& self.limit <= usize::MAX
    }

    /// The number of operations that are launched and not complete.
    pub open spec fn running(self) -> nat {
        count_running(self.slots)
    }

    /// Another operation may be launched.
    pub open spec fn can_launch(self) -> bool {
        self.launched() < self.total && self.slots.len() < self.limit
    }

    /// The operation of the given input is launched and not complete.
    pub open spec fn is_running(self, index: nat) -> bool {
        self.emitted <= index < self.launched() && self.slots[index - self.emitted].is_none()
    }

    /// The result that the window holds for an input, if it holds one.
    pub open spec fn result_of(self, index: nat) -> Option<T> {
        if self.emitted <= index < self.launched() {
            self.slots[index - self.emitted]
        } else {
            None
        }
    }

    /// The window after one more operation is launched.
    pub open spec fn after_launch(self) -> FanOutView<T> {
        FanOutView { slots: self.slots.push(None), ..self }
    }

    /// The window after the operation of `index` brought `outcome`.
    pub open spec fn after_complete(self, index: nat, outcome: T) -> FanOutView<T> {
        FanOutView { slots: self.slots.update(index - self.emitted, Some(outcome)), ..self }
    }

    /// The window after its first result is emitted.
    pub open spec fn after_emit(self) -> FanOutView<T> {
        FanOutView { emitted: self.emitted + 1, slots: self.slots.drop_first(), ..self }
    }

    /// The result that is emitted next is there.
    pub open spec fn can_emit(self) -> bool {
        self.slots.len() > 0 && self.slots[0].is_some()
    }

    /// Every result has been emitted.
    pub open spec fn is_done(self) -> bool {
        self.emitted == self.total
    }
}

/// The window over the operations of a list of inputs.
pub struct FanOut<T> {
    total: usize,
    limit: usize,
    emitted: usize,
    slots: Vec<Option<T>>,
}

impl<T> View for FanOut<T> {
    type V = FanOutView<T>;

    closed spec fn view(&self) -> FanOutView<T> {
        FanOutView {
            total: self.total as nat,
            limit: self.limit as nat,
            emitted: self.emitted as nat,
            slots: self.slots@,
        }
    }
}

impl<T> FanOut<T> {
    /// A window over `total` inputs that holds at most `limit` operations at
    /// a time. None is launched yet.
    pub fn new(total: usize, limit: usize) -> (r: FanOut<T>)
        ensures
            r@ == FanOutView::<T>::start(total as nat, limit as nat),
            r@.wf(),
    {
        FanOut { total, limit, emitted: 0, slots: Vec::new() }
    }

    /// Takes the next input into the window, if the limit allows one more
    /// and an input is left, and gives its index: the caller launches its
    /// operation.
    pub fn next_launch(&mut self) -> (r: Option<usize>)
        requires
            old(self)@.wf(),
        ensures
            final(self)@.wf(),
            match r {
                Some(index) => old(self)@.can_launch() && index == old(self)@.launched() && final(self)@
                    == old(self)@.after_launch(),
                None => !old(self)@.can_launch() && final(self)@ == old(self)@,
            },
            final(self)@.running() <= final(self)@.limit,
    {
        proof {
            lemma_running_within_window(self@);
        }
        let window: usize = self.slots.len();
        if window < self.limit && window < self.total - self.emitted {
            let index: usize = self.emitted + window;
            self.slots.push(None);
            proof {
                lemma_running_within_window(self@);
            }
            Some(index)
        } else {
            None
        }
    }

    /// Takes the result of a running operation. A result for an input that
    /// is not running (never launched, complete already, or emitted) is
    /// handed back and changes nothing.
    pub fn complete(&mut self, index: usize, outcome: T) -> (r: Result<(), T>)
        requires
            old(self)@.wf(),
        ensures
            final(self)@.wf(),
            match r {
                Ok(()) => old(self)@.is_running(index as nat) && final(self)@ == old(self)@.after_complete(
                    index as nat,
                    outcome,
                ),
                Err(back) => !old(self)@.is_running(index as nat) && back == outcome && final(self)@ == old(
                    self,
                )@,
            },
    {
        if index < self.emitted || index - self.emitted >= self.slots.len() {
            return Err(outcome);
        }
        let slot: usize = index - self.emitted;
        if self.slots[slot].is_some() {
            return Err(outcome);
        }
        self.slots.set(slot, Some(outcome));
        Ok(())
    }

    /// Gives the next result in input order, with the index of its input,
    /// once it is there. Results that are ready behind a running operation
    /// stay in the window.
    pub fn next_emit(&mut self) -> (r: Option<(usize, T)>)
        requires
            old(self)@.wf(),
        ensures
            final(self)@.wf(),
            match r {
                Some((index, outcome)) => old(self)@.can_emit() && index == old(self)@.emitted && Some(outcome)
                    == old(self)@.slots[0] && final(self)@ == old(self)@.after_emit(),
                None => !old(self)@.can_emit() && final(self)@ == old(self)@,
            },
    {
        if self.slots.len() == 0 || self.slots[0].is_none() {
            return None;
        }
        let first: Option<T> = self.slots.remove(0);
        assert(self.slots@ =~= old(self)@.slots.drop_first());
        let index: usize = self.emitted;
        self.emitted = self.emitted + 1;
        match first {
            Some(outcome) => Some((index, outcome)),
            None => {
                assert(false);
                None
            },
        }
    }

    /// Whether every result has been emitted.
    pub fn is_done(&self) -> (r: bool)
        ensures
            r == self@.is_done(),
    {
        self.emitted == self.total
    }

    /// The number of operations that are launched and not complete.
    pub fn in_flight(&self) -> (r: usize)
        requires
            self@.wf(),
        ensures
            r == self@.running(),
            r <= self@.limit,
    {
        let mut count: usize = 0;
        let mut i: usize = 0;
        while i < self.slots.len()
            invariant
                i <= self.slots.len(),
                count == count_running(self.slots@.take(i as int)),
                count <= i,
            decreases self.slots.len() - i,
        {
            proof {
                let next = self.slots@.take(i + 1);
                assert(next.drop_last() =~= self.slots@.take(i as int));
                assert(next.last() == self.slots@[i as int]);
            }
            if self.slots[i].is_none() {
                count = count + 1;
            }
            i += 1;
        }
        assert(self.slots@.take(self.slots.len() as int) =~= self.slots@);
        count
    }

    /// The number of operations in the window: launched and not emitted.
    pub fn window(&self) -> (r: usize)
        ensures
            r == self@.slots.len(),
    {
        self.slots.len()
    }
}

/// No more operations run than the window holds, and the window holds no
/// more than its limit.
pub proof fn lemma_running_within_window<T>(window: FanOutView<T>)
    requires
        window.wf(),
    ensures
        window.running() <= window.slots.len() <= window.limit,
{
    lemma_count_running_bound(window.slots);
}

/// The slots that wait for a result are no more than the slots.
pub proof fn lemma_count_running_bound<T>(slots: Seq<Option<T>>)
    ensures
        count_running(slots) <= slots.len(),
    decreases slots.len(),
{
    if slots.len() > 0 {
        lemma_count_running_bound(slots.drop_last());
    }
}

/// A result stays with its input whatever else happens: launching changes
/// no result, a completion sets the result of its own input and no other,
/// and an emission takes the result of the input that is next in order,
/// which is the first in the window, and leaves the others.
pub proof fn lemma_results_keep_their_input<T>(window: FanOutView<T>, index: nat, outcome: T, other: nat)
    requires
        window.wf(),
    ensures
        window.after_launch().result_of(other) == window.result_of(other),
        window.is_running(index) ==> window.after_complete(index, outcome).result_of(index) == Some(outcome),
        window.is_running(index) && other != index ==> window.after_complete(index, outcome).result_of(other)
            == window.result_of(other),
        window.can_emit() ==> window.result_of(window.emitted) == window.slots[0],
        window.can_emit() && other != window.emitted ==> window.after_emit().result_of(other)
            == window.result_of(other),
        window.can_emit() ==> window.after_emit().result_of(window.emitted).is_none(),
{
}

/// Whatever the events and their order, a window that starts empty stays
/// within its limit, emits one result per emission, and emits them in input
/// order: the result at place `k` of the output is the one that the
/// operation of input `k` brought.
pub proof fn lemma_runs_are_bounded_and_ordered<T>(total: nat, limit: nat, events: Seq<Event<T>>)
    requires
        total <= usize::MAX,
        limit <= usize::MAX,
    ensures
        FanOutView::<T>::start(total, limit).run(events).wf(),
        FanOutView::<T>::start(total, limit).run(events).running() <= limit,
        FanOutView::<T>::start(total, limit).run(events).slots.len() <= limit,
        FanOutView::<T>::start(total, limit).emitted_by(events).len() == FanOutView::<T>::start(
            total,
            limit,
        ).run(events).emitted,
        forall|k: nat|
            k < FanOutView::<T>::start(total, limit).emitted_by(events).len() ==> #[trigger] FanOutView::<
                T,
            >::start(total, limit).brought(events, k) == Some(
                FanOutView::<T>::start(total, limit).emitted_by(events)[k as int],
            ),
{
    let start = FanOutView::<T>::start(total, limit);
    lemma_trace_invariant(start, events);
    let now = start.run(events);
    lemma_running_within_window(now);
}

/// The trace invariant holds after every sequence of events on a window
/// that starts empty.
pub proof fn lemma_trace_invariant<T>(start: FanOutView<T>, events: Seq<Event<T>>)
    requires
        start.wf(),
        start.emitted == 0,
        start.slots.len() == 0,
    ensures
        start.trace_invariant(events),
    decreases events.len(),
{
    if events.len() > 0 {
        let earlier = events.drop_last();
        lemma_trace_invariant(start, earlier);
        let before = start.run(earlier);
        let now = start.run(events);
        let out = start.emitted_by(events);
        let out_before = start.emitted_by(earlier);
        assert(now == before.step(events.last()));
        match events.last() {
            Event::Launch => {
                assert forall|i: nat| now.emitted <= i implies #[trigger] start.brought(events, i)
                    == now.result_of(i) by {
                    assert(start.brought(earlier, i) == before.result_of(i));
                }
                assert forall|k: nat| k < now.emitted implies #[trigger] start.brought(events, k) == Some(
                    out[k as int],
                ) by {
                    assert(start.brought(earlier, k) == Some(out_before[k as int]));
                }
            },
            Event::Complete { index, outcome } => {
                assert forall|i: nat| now.emitted <= i implies #[trigger] start.brought(events, i)
                    == now.result_of(i) by {
                    assert(start.brought(earlier, i) == before.result_of(i));
                }
                assert forall|k: nat| k < now.emitted implies #[trigger] start.brought(events, k) == Some(
                    out[k as int],
                ) by {
                    assert(start.brought(earlier, k) == Some(out_before[k as int]));
                }
            },
            Event::Emit => {
                if before.can_emit() {
                    assert(start.brought(earlier, before.emitted) == before.result_of(before.emitted));
                    assert forall|i: nat| now.emitted <= i implies #[trigger] start.brought(events, i)
                        == now.result_of(i) by {
                        assert(start.brought(earlier, i) == before.result_of(i));
                    }
                    assert forall|k: nat| k < now.emitted implies #[trigger] start.brought(events, k)
                        == Some(out[k as int]) by {
                        if k < before.emitted {
                            assert(start.brought(earlier, k) == Some(out_before[k as int]));
                        }
                    }
                } else {
                    assert forall|i: nat| now.emitted <= i implies #[trigger] start.brought(events, i)
                        == now.result_of(i) by {
                        assert(start.brought(earlier, i) == before.result_of(i));
                    }
                    assert forall|k: nat| k < now.emitted implies #[trigger] start.brought(events, k)
                        == Some(out[k as int]) by {
                        assert(start.brought(earlier, k) == Some(out_before[k as int]));
                    }
                }
            },
        }
    }
}

/// A window that holds an operation can emit a result or has an operation
/// running.
pub proof fn lemma_window_makes_progress<T>(window: FanOutView<T>)
    requires
        window.wf(),
        window.slots.len() > 0,
    ensures
        window.can_emit() || window.running() > 0,
{
    if window.slots[0].is_none() {
        lemma_first_running_counts(window.slots);
    }
}

/// A first slot that waits for its result is counted among the running.
pub proof fn lemma_first_running_counts<T>(slots: Seq<Option<T>>)
    requires
        slots.len() > 0,
        slots[0].is_none(),
    ensures
        count_running(slots) > 0,
    decreases slots.len(),
{
    if slots.len() > 1 {
        lemma_first_running_counts(slots.drop_last());
    }
}

} // verus!
