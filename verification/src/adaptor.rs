//! The batching state machine.
//!
//! [`Chunks`] owns the buffer, the capacity and wait-time configuration, and
//! the deferred-error slot. It is advanced by feeding it the outcome of
//! polling the underlying source ([`SourceEvent`]) and, when the source has
//! nothing ready, the outcome of polling the deadline timer ([`TimerEvent`]).
//! Each feeding returns a [`Step`] telling the driver what to do next.

use vstd::prelude::*;

verus! {

/// Error reported by the adaptor: either the underlying source failed, or
/// the deadline timer mechanism failed.
pub enum Error<E, TE> {
    /// The underlying source returned an error.
    Inner(E),
    /// The timer returned an error.
    Timer(TE),
}

/// The outcome of polling the underlying source once.
pub enum SourceEvent<T, E> {
    /// The source has nothing ready yet.
    Pending,
    /// The source produced one item.
    Item(T),
    /// The source is exhausted and will produce nothing further.
    End,
    /// The source failed.
    Failed(E),
}

/// The outcome of polling the deadline timer once.
pub enum TimerEvent<TE> {
    /// No timer is armed. Only expected while the buffer is empty.
    Unarmed,
    /// The armed timer has not elapsed yet.
    Pending,
    /// The armed timer has elapsed.
    Elapsed,
    /// The timer mechanism failed.
    Failed(TE),
}

/// What the driver must do after feeding one event to the state machine.
pub enum Step<T, E, TE> {
    /// An item was buffered; poll the source again at once to drain any
    /// further already-ready items.
    Drained,
    /// The source had nothing ready; poll the deadline timer next.
    CheckTimer,
    /// Neither the source nor the timer is ready; suspend until one wakes.
    Suspend,
    /// A completed batch to hand to the caller.
    Batch(Vec<T>),
    /// End of the sequence: nothing is buffered and nothing more will come.
    End,
    /// A failure to hand to the caller now.
    Fail(Error<E, TE>),
}

/// Mathematical value of a [`Step`]: a batch is a sequence.
pub enum StepView<T, E, TE> {
    Drained,
    CheckTimer,
    Suspend,
    Batch(Seq<T>),
    End,
    Fail(Error<E, TE>),
}

impl<T, E, TE> View for Step<T, E, TE> {
    type V = StepView<T, E, TE>;

    open spec fn view(&self) -> StepView<T, E, TE> {
        match self {
            Step::Drained => StepView::Drained,
            Step::CheckTimer => StepView::CheckTimer,
            Step::Suspend => StepView::Suspend,
            Step::Batch(b) => StepView::Batch(b@),
            Step::End => StepView::End,
            Step::Fail(e) => StepView::Fail(*e),
        }
    }
}

/// Mathematical value of the adaptor state.
#[verifier::ext_equal]
pub struct ChunksView<T, E, TE> {
    /// The items buffered since the last flush, oldest first.
    pub items: Seq<T>,
    /// The configured capacity: a batch is released as soon as it holds
    /// this many items.
    pub cap: nat,
    /// The configured maximum wait, in milliseconds, between the arrival of
    /// the first item of a batch and the release of that batch.
    pub duration_ms: nat,
    /// A failure held back until the already-buffered items have been
    /// delivered.
    pub err: Option<Error<E, TE>>,
}

impl<T, E, TE> ChunksView<T, E, TE> {
    /// The state invariant: the capacity is positive, the buffer never
    /// reaches it between advances (reaching it triggers an immediate
    /// flush), and an error is only ever deferred behind an empty buffer
    /// (the buffer is flushed in the same step that defers the error).
    pub open spec fn inv(self) -> bool {
        &&& self.cap > 0
        &&& self.items.len() < self.cap
        &&& self.err is Some ==> self.items.len() == 0
    }

    /// The deadline timer is armed if and only if the buffer became
    /// non-empty since the last flush; so, exactly while it is non-empty.
    /// In particular an absent timer means an empty buffer.
    pub open spec fn timer_armed(self) -> bool {
        self.items.len() > 0
    }

    /// The state right after a flush: buffer handed off, timer disarmed,
    /// configuration kept.
    pub open spec fn flushed(self) -> ChunksView<T, E, TE> {
        ChunksView { items: Seq::empty(), ..self }
    }
}

/// The state a freshly constructed adaptor is in: empty buffer, no armed
/// timer, no deferred error.
pub open spec fn init_view<T, E, TE>(cap: nat, duration_ms: nat) -> ChunksView<T, E, TE> {
    ChunksView { items: Seq::empty(), cap, duration_ms, err: None }
}

/// What one source event does to the state, and what the driver is told.
pub open spec fn source_step<T, E, TE>(
    st: ChunksView<T, E, TE>,
    ev: SourceEvent<T, E>,
) -> (ChunksView<T, E, TE>, StepView<T, E, TE>) {
    match ev {
        SourceEvent::Pending => (st, StepView::CheckTimer),
        SourceEvent::Item(t) => {
            let grown = st.items.push(t);
            if grown.len() >= st.cap {
                (st.flushed(), StepView::Batch(grown))
            } else {
                (ChunksView { items: grown, ..st }, StepView::Drained)
            }
        },
        SourceEvent::End => {
            if st.items.len() > 0 {
                (st.flushed(), StepView::Batch(st.items))
            } else {
                (st, StepView::End)
            }
        },
        SourceEvent::Failed(e) => {
            if st.items.len() > 0 {
                (
                    ChunksView { items: Seq::empty(), err: Some(Error::Inner(e)), ..st },
                    StepView::Batch(st.items),
                )
            } else {
                (st, StepView::Fail(Error::Inner(e)))
            }
        },
    }
}

/// What one timer event does to the state, and what the driver is told.
pub open spec fn timer_step<T, E, TE>(
    st: ChunksView<T, E, TE>,
    ev: TimerEvent<TE>,
) -> (ChunksView<T, E, TE>, StepView<T, E, TE>) {
    match ev {
        TimerEvent::Unarmed => (st, StepView::Suspend),
        TimerEvent::Pending => (st, StepView::Suspend),
        TimerEvent::Elapsed => (st.flushed(), StepView::Batch(st.items)),
        TimerEvent::Failed(te) => {
            if st.items.len() > 0 {
                (
                    ChunksView { items: Seq::empty(), err: Some(Error::Timer(te)), ..st },
                    StepView::Batch(st.items),
                )
            } else {
                (st, StepView::Fail(Error::Timer(te)))
            }
        },
    }
}

/// What taking the deferred error does: the slot is cleared and its old
/// content is what the caller is given.
pub open spec fn deferred_step<T, E, TE>(
    st: ChunksView<T, E, TE>,
) -> (ChunksView<T, E, TE>, Option<Error<E, TE>>) {
    (ChunksView { err: None, ..st }, st.err)
}

/// The batching state machine: buffers items up to a capacity, releases a
/// batch on reaching it, on a timer elapse, or on exhaustion of the source,
/// and holds a failure back until buffered items have been delivered.
///
/// The driver advances it like this, once per wake-up:
/// 1. call [`Chunks::take_deferred`]; a held error is reported at once;
/// 2. poll the source and feed the outcome to [`Chunks::on_source`];
///    repeat while it answers [`Step::Drained`];
/// 3. when it answers [`Step::CheckTimer`], poll the deadline timer and
///    feed the outcome to [`Chunks::on_timer`];
/// 4. report what the final [`Step`] says; keep the driver's timer handle
///    in sync with [`Chunks::is_timer_armed`] after every step, arming it
///    for "now + duration" the moment it becomes armed.
pub struct Chunks<T, E, TE> {
    items: Vec<T>,
    cap: usize,
    duration_ms: u64,
    err: Option<Error<E, TE>>,
}

impl<T, E, TE> View for Chunks<T, E, TE> {
    type V = ChunksView<T, E, TE>;

    closed spec fn view(&self) -> ChunksView<T, E, TE> {
        ChunksView {
            items: self.items@,
            cap: self.cap as nat,
            duration_ms: self.duration_ms as nat,
            err: self.err,
        }
    }
}

impl<T, E, TE> Chunks<T, E, TE> {
    /// The state invariant, established by [`Chunks::new`] and preserved by
    /// every advance.
    pub open spec fn wf(&self) -> bool {
        self@.inv()
    }

    /// Creates an adaptor that groups items into batches of up to `capacity`
    /// items, waiting at most `duration_ms` milliseconds from the first item
    /// of a batch before releasing it partially filled.
    ///
    /// A zero capacity is a programming error, excluded by precondition: a
    /// caller receiving an untrusted capacity must reject zero itself before
    /// constructing, as such an adaptor could never release a batch by count.
    pub fn new(capacity: usize, duration_ms: u64) -> (r: Chunks<T, E, TE>)
        requires
            capacity > 0,
        ensures
            r.wf(),
            r@ == init_view::<T, E, TE>(capacity as nat, duration_ms as nat),
    {
        let r = Chunks { items: Vec::with_capacity(capacity), cap: capacity, duration_ms, err: None };
        proof {
            assert(r@ =~= init_view::<T, E, TE>(capacity as nat, duration_ms as nat));
        }
        r
    }

    /// Flush: hands the buffered items out and replaces the buffer with a
    /// fresh one of the same reserved capacity. The timer is thereby
    /// disarmed, since an empty buffer means an unarmed timer.
    fn flush(&mut self) -> (batch: Vec<T>)
        ensures
            batch@ == old(self)@.items,
            final(self)@ == old(self)@.flushed(),
    {
        let mut fresh: Vec<T> = Vec::with_capacity(self.cap);
        core::mem::swap(&mut self.items, &mut fresh);
        proof {
            assert(self@ =~= old(self)@.flushed());
        }
        fresh
    }

    /// Feeds the outcome of one poll of the underlying source to the state
    /// machine. The returned [`Step`] and the new state are exactly what
    /// [`source_step`] says:
    /// - nothing ready: the driver moves on to the timer;
    /// - an item: it is appended (arming the timer if it is the first of its
    ///   batch), and the batch is released at once if the capacity is
    ///   reached, otherwise the driver polls the source again immediately;
    /// - exhaustion: a non-empty buffer is released as a final partial
    ///   batch, an empty one ends the sequence;
    /// - failure with an empty buffer: reported at once; with a non-empty
    ///   buffer: the batch is released now and the failure deferred to the
    ///   next advance.
    pub fn on_source(&mut self, ev: SourceEvent<T, E>) -> (r: Step<T, E, TE>)
        requires
            old(self).wf(),
            old(self)@.err is None,
        ensures
            final(self).wf(),
            final(self)@ == source_step(old(self)@, ev).0,
            r@ == source_step(old(self)@, ev).1,
    {
        match ev {
            SourceEvent::Pending => Step::CheckTimer,
            SourceEvent::Item(t) => {
                self.items.push(t);
                if self.items.len() >= self.cap {
                    let batch = self.flush();
                    Step::Batch(batch)
                } else {
                    proof {
                        assert(self@ =~= (ChunksView { items: old(self)@.items.push(t), ..old(self)@ }));
                    }
                    Step::Drained
                }
            },
            SourceEvent::End => {
                if self.items.len() > 0 {
                    let batch = self.flush();
                    Step::Batch(batch)
                } else {
                    Step::End
                }
            },
            SourceEvent::Failed(e) => {
                if self.items.len() > 0 {
                    let batch = self.flush();
                    self.err = Some(Error::Inner(e));
                    proof {
                        assert(self@ =~= source_step(old(self)@, ev).0);
                    }
                    Step::Batch(batch)
                } else {
                    Step::Fail(Error::Inner(e))
                }
            },
        }
    }

    /// Feeds the outcome of one poll of the deadline timer to the state
    /// machine; only reached once the source reported nothing ready. The
    /// returned [`Step`] and the new state are exactly what [`timer_step`]
    /// says:
    /// - unarmed or not yet elapsed: the driver suspends;
    /// - elapsed: the buffer, necessarily non-empty while the timer is
    ///   armed, is released as a batch;
    /// - failure with an empty buffer: reported at once; with a non-empty
    ///   buffer: the batch is released now and the failure deferred to the
    ///   next advance.
    ///
    /// An unarmed timer with a non-empty buffer would mean the driver lost
    /// track of the armed state; that is excluded by precondition, as the
    /// original aborts there. So is an elapse of a timer that was never
    /// armed.
    pub fn on_timer(&mut self, ev: TimerEvent<TE>) -> (r: Step<T, E, TE>)
        requires
            old(self).wf(),
            old(self)@.err is None,
            ev is Unarmed ==> old(self)@.items.len() == 0,
            ev is Elapsed ==> old(self)@.timer_armed(),
        ensures
            final(self).wf(),
            final(self)@ == timer_step(old(self)@, ev).0,
            r@ == timer_step(old(self)@, ev).1,
    {
        match ev {
            TimerEvent::Unarmed => Step::Suspend,
            TimerEvent::Pending => Step::Suspend,
            TimerEvent::Elapsed => {
                let batch = self.flush();
                Step::Batch(batch)
            },
            TimerEvent::Failed(te) => {
                if self.items.len() > 0 {
                    let batch = self.flush();
                    self.err = Some(Error::Timer(te));
                    proof {
                        assert(self@ =~= timer_step(old(self)@, ev).0);
                    }
                    Step::Batch(batch)
                } else {
                    Step::Fail(Error::Timer(te))
                }
            },
        }
    }

    /// Takes the deferred error, if one is staged: the first thing every
    /// advance does. A `Some` is reported to the caller at once, with no
    /// further buffering work on that advance.
    pub fn take_deferred(&mut self) -> (r: Option<Error<E, TE>>)
        requires
            old(self).wf(),
        ensures
            final(self).wf(),
            final(self)@ == deferred_step(old(self)@).0,
            r == deferred_step(old(self)@).1,
    {
        let mut r: Option<Error<E, TE>> = None;
        core::mem::swap(&mut self.err, &mut r);
        proof {
            assert(self@ =~= deferred_step(old(self)@).0);
        }
        r
    }

    /// The configured capacity.
    pub fn capacity(&self) -> (r: usize)
        ensures
            r as nat == self@.cap,
    {
        self.cap
    }

    /// The configured maximum wait, in milliseconds.
    pub fn duration_millis(&self) -> (r: u64)
        ensures
            r as nat == self@.duration_ms,
    {
        self.duration_ms
    }

    /// How many items are buffered for the batch in progress.
    pub fn len(&self) -> (r: usize)
        ensures
            r as nat == self@.items.len(),
    {
        self.items.len()
    }

    /// Whether the buffer is empty.
    pub fn is_empty(&self) -> (r: bool)
        ensures
            r == (self@.items.len() == 0),
    {
        self.items.is_empty()
    }

    /// Whether the deadline timer is armed: exactly while the buffer is
    /// non-empty. The driver keeps its timer handle in sync with this,
    /// scheduling it for "now + duration" the moment it becomes armed — so
    /// the deadline is anchored to the first item of the batch in progress.
    pub fn is_timer_armed(&self) -> (r: bool)
        ensures
            r == self@.timer_armed(),
    {
        self.items.len() > 0
    }
}

} // verus!
