//! The behavioural laws of the batching state machine, stated over the spec
//! transitions of [`crate::adaptor`] and proved once for every capacity,
//! wait time and input.
//!
//! The laws speak about runs: [`run_items`] folds a sequence of ready source
//! items through [`source_step`] and collects the batches that come out, the
//! way a driver drains an always-ready source. The expected grouping is
//! described by [`full_chunks`] and [`chunk_rest`].

use vstd::prelude::*;

use crate::adaptor::{
    deferred_step, init_view, source_step, timer_step, ChunksView, Error, SourceEvent, StepView,
    TimerEvent,
};
use vstd::arithmetic::div_mod::{
    lemma_fundamental_div_mod, lemma_fundamental_div_mod_converse, lemma_mod_bound,
};
use vstd::seq_lib::lemma_flatten_concat;

verus! {

/// The batches that one step hands to the caller: one for a flush, none
/// otherwise.
pub open spec fn emitted<T, E, TE>(out: StepView<T, E, TE>) -> Seq<Seq<T>> {
    match out {
        StepView::Batch(b) => seq![b],
        _ => Seq::empty(),
    }
}

/// Feeds `input` to the state machine item by item, each item ready at
/// once, and collects the batches handed out along the way: the run a
/// driver performs while draining an always-ready source.
pub open spec fn run_items<T, E, TE>(
    st: ChunksView<T, E, TE>,
    input: Seq<T>,
) -> (ChunksView<T, E, TE>, Seq<Seq<T>>)
    decreases input.len(),
{
    if input.len() == 0 {
        (st, Seq::empty())
    } else {
        let (st1, out) = source_step(st, SourceEvent::<T, E>::Item(input[0]));
        let (st2, rest) = run_items(st1, input.drop_first());
        (st2, emitted(out) + rest)
    }
}

/// The full groups of `cap` consecutive elements of `s`, in order.
pub open spec fn full_chunks<T>(s: Seq<T>, cap: nat) -> Seq<Seq<T>>
    decreases s.len() when cap > 0
{
    if s.len() < cap {
        Seq::empty()
    } else {
        seq![s.take(cap as int)] + full_chunks(s.skip(cap as int), cap)
    }
}

/// What remains of `s` after its full groups of `cap` elements: the final
/// partial group, possibly empty.
pub open spec fn chunk_rest<T>(s: Seq<T>, cap: nat) -> Seq<T>
    decreases s.len() when cap > 0
{
    if s.len() < cap {
        s
    } else {
        chunk_rest(s.skip(cap as int), cap)
    }
}

/// The shape of the grouping: the full groups and the remainder together
/// are exactly `s`, every full group has exactly `cap` elements, there are
/// `s.len() / cap` of them, and the remainder has `s.len() % cap` elements.
pub proof fn lemma_chunk_shape<T>(s: Seq<T>, cap: nat)
    requires
        cap > 0,
    ensures
        full_chunks(s, cap).flatten() + chunk_rest(s, cap) == s,
        forall|i: int|
            0 <= i < full_chunks(s, cap).len() ==> (#[trigger] full_chunks(s, cap)[i]).len()
                == cap,
        full_chunks(s, cap).len() == s.len() / cap,
        chunk_rest(s, cap).len() == s.len() % cap,
    decreases s.len(),
{
    if s.len() < cap {
        assert(full_chunks(s, cap).flatten() + chunk_rest(s, cap) =~= s);
        lemma_fundamental_div_mod_converse(s.len() as int, cap as int, 0, s.len() as int);
    } else {
        let tail = s.skip(cap as int);
        lemma_chunk_shape(tail, cap);
        let head = seq![s.take(cap as int)];
        head.lemma_flatten_singleton();
        lemma_flatten_concat(head, full_chunks(tail, cap));
        assert(full_chunks(s, cap) == head + full_chunks(tail, cap));
        assert(full_chunks(s, cap).flatten() == s.take(cap as int) + full_chunks(tail, cap).flatten());
        assert(chunk_rest(s, cap) == chunk_rest(tail, cap));
        let flat_tail = full_chunks(tail, cap).flatten();
        assert((s.take(cap as int) + flat_tail) + chunk_rest(tail, cap) =~= s.take(cap as int) + (
        flat_tail + chunk_rest(tail, cap)));
        assert(s.take(cap as int) + tail =~= s);
        assert(full_chunks(s, cap).flatten() + chunk_rest(s, cap) == s);
        assert forall|i: int| 0 <= i < full_chunks(s, cap).len() implies (#[trigger] full_chunks(
            s,
            cap,
        )[i]).len() == cap by {
            if i > 0 {
                assert(full_chunks(s, cap)[i] == full_chunks(tail, cap)[i - 1]);
            }
        }
        let q = (tail.len() as int) / (cap as int);
        let r = (tail.len() as int) % (cap as int);
        lemma_fundamental_div_mod(tail.len() as int, cap as int);
        lemma_mod_bound(tail.len() as int, cap as int);
        assert(s.len() == (q + 1) * (cap as int) + r) by (nonlinear_arith)
            requires
                tail.len() == (cap as int) * q + r,
                s.len() == tail.len() + cap,
        ;
        lemma_fundamental_div_mod_converse(s.len() as int, cap as int, q + 1, r);
    }
}

/// The run invariant: draining an always-ready source from any reachable
/// error-free state emits exactly the full groups of the already-buffered
/// items followed by the input, leaves their remainder buffered, keeps the
/// configuration, and stages no error.
pub proof fn lemma_run_items<T, E, TE>(st: ChunksView<T, E, TE>, input: Seq<T>)
    requires
        st.inv(),
        st.err is None,
    ensures
        ({
            let (st2, batches) = run_items(st, input);
            &&& st2.inv()
            &&& st2.cap == st.cap
            &&& st2.duration_ms == st.duration_ms
            &&& st2.err is None
            &&& batches == full_chunks(st.items + input, st.cap)
            &&& st2.items == chunk_rest(st.items + input, st.cap)
        }),
    decreases input.len(),
{
    let all = st.items + input;
    if input.len() == 0 {
        assert(all =~= st.items);
    } else {
        let t = input[0];
        let (st1, out) = source_step(st, SourceEvent::<T, E>::Item(t));
        if st.items.len() + 1 >= st.cap {
            // The capacity is reached: the grown buffer leaves as a batch.
            lemma_run_items(st1, input.drop_first());
            assert(all.len() >= st.cap);
            assert(all.take(st.cap as int) =~= st.items.push(t));
            assert(all.skip(st.cap as int) =~= input.drop_first());
            assert(st1.items + input.drop_first() =~= input.drop_first());
            let (st2, rest) = run_items(st1, input.drop_first());
            assert(emitted(out) + rest =~= full_chunks(all, st.cap));
        } else {
            // The item is buffered and the run goes on over the same whole.
            lemma_run_items(st1, input.drop_first());
            assert(st1.items + input.drop_first() =~= all);
            let (st2, rest) = run_items(st1, input.drop_first());
            assert(emitted(out) + rest =~= rest);
        }
    }
}

/// Exact chunking: a fresh adaptor fed an always-ready input of length `L`
/// and then the end of the source emits, with no timeout ever firing,
/// exactly `⌈L / cap⌉` batches; each has `cap` items except the last, which
/// has `L % cap` (or `cap` when `cap` divides `L`); their concatenation is
/// the input in its original order; and the advance after the last batch
/// reports the end of the sequence.
pub proof fn lemma_exact_chunking<T, E, TE>(cap: nat, duration_ms: nat, input: Seq<T>)
    requires
        cap > 0,
    ensures
        ({
            let st0 = init_view::<T, E, TE>(cap, duration_ms);
            let (st1, batches) = run_items(st0, input);
            let (st2, fin) = source_step(st1, SourceEvent::<T, E>::End);
            let all = batches + emitted(fin);
            &&& all.len() == (input.len() + cap - 1) / (cap as int)
            &&& forall|i: int|
                0 <= i < all.len() - 1 ==> (#[trigger] all[i]).len() == cap
            &&& input.len() > 0 ==> all.len() > 0 && all.last().len() == (if input.len() % cap
                == 0 {
                cap as int
            } else {
                (input.len() % cap) as int
            })
            &&& all.flatten() == input
            &&& source_step(st2, SourceEvent::<T, E>::End).1 == StepView::<T, E, TE>::End
        }),
{
    let st0 = init_view::<T, E, TE>(cap, duration_ms);
    let (st1, batches) = run_items(st0, input);
    let (st2, fin) = source_step(st1, SourceEvent::<T, E>::End);
    let all = batches + emitted(fin);
    assert(st0.items + input =~= input);
    lemma_run_items(st0, input);
    lemma_chunk_shape(input, cap);
    let l = input.len() as int;
    let c = cap as int;
    let q = l / c;
    let r = l % c;
    lemma_fundamental_div_mod(l, c);
    lemma_mod_bound(l, c);
    let rest = chunk_rest(input, cap);
    if rest.len() == 0 {
        // The input splits evenly; the final advance finds an empty buffer.
        assert(all =~= batches);
        assert((l + c - 1) == q * c + (c - 1)) by (nonlinear_arith)
            requires
                l == c * q + r,
                r == 0,
        ;
        lemma_fundamental_div_mod_converse(l + c - 1, c, q, c - 1);
        if input.len() > 0 {
            assert(q > 0) by (nonlinear_arith)
                requires
                    l == c * q + r,
                    r == 0,
                    l > 0,
                    c > 0,
                    q >= 0,
            ;
            assert(all.last() == full_chunks(input, cap)[q - 1]);
        }
        lemma_flatten_concat(batches, Seq::<Seq<T>>::empty());
        assert(batches.flatten() + rest =~= batches.flatten());
    } else {
        // The remainder leaves as one final partial batch.
        assert(fin == StepView::<T, E, TE>::Batch(rest));
        assert((l + c - 1) == (q + 1) * c + (r - 1)) by (nonlinear_arith)
            requires
                l == c * q + r,
                0 < r < c,
        ;
        lemma_fundamental_div_mod_converse(l + c - 1, c, q + 1, r - 1);
        assert forall|i: int| 0 <= i < all.len() - 1 implies (#[trigger] all[i]).len() == cap by {
            assert(all[i] == full_chunks(input, cap)[i]);
        }
        assert(all.last() == rest);
        lemma_flatten_concat(batches, seq![rest]);
        seq![rest].lemma_flatten_singleton();
        assert(all.flatten() =~= input);
    }
    // After the final flush the buffer is empty and a further advance
    // reports the end of the sequence.
    assert(st2.items.len() == 0);
}

/// Timeout flush: when the deadline timer fires with fewer items buffered
/// than the capacity, the batch released holds exactly the items that
/// arrived since the last flush; the timer is then disarmed, so the next
/// batch's deadline is anchored to the arrival of its own first item,
/// which arms the timer afresh, not to the previous deadline.
pub proof fn lemma_timeout_flush<T, E, TE>(st: ChunksView<T, E, TE>, next: T)
    requires
        st.inv(),
        st.err is None,
        st.timer_armed(),
    ensures
        ({
            let (st1, out) = timer_step(st, TimerEvent::<TE>::Elapsed);
            &&& out == StepView::<T, E, TE>::Batch(st.items)
            &&& st1.items.len() == 0
            &&& !st1.timer_armed()
            &&& st1.err is None
            &&& st1.inv()
            &&& st.cap > 1 ==> source_step(st1, SourceEvent::<T, E>::Item(next)).0.timer_armed()
        }),
{
}

/// Final partial flush: when the source ends with a non-empty buffer,
/// exactly one batch holding the remaining items is released, and the
/// advance after it reports the end of the sequence; when the source ends
/// with an empty buffer, the end is reported at once, with no batch and no
/// change of state.
pub proof fn lemma_final_partial_flush<T, E, TE>(st: ChunksView<T, E, TE>)
    requires
        st.inv(),
        st.err is None,
    ensures
        ({
            let (st1, out) = source_step(st, SourceEvent::<T, E>::End);
            &&& st.items.len() > 0 ==> out == StepView::<T, E, TE>::Batch(st.items)
                && source_step(st1, SourceEvent::<T, E>::End).1 == StepView::<T, E, TE>::End
            &&& st.items.len() == 0 ==> out == StepView::<T, E, TE>::End && st1 == st
        }),
{
}

/// Error ordering for a source failure: with a non-empty buffer, the very
/// next two advances hand the caller first the pending batch, then the
/// failure tagged as the source's; with an empty buffer, the very next
/// advance hands the tagged failure at once.
pub proof fn lemma_error_ordering_source<T, E, TE>(st: ChunksView<T, E, TE>, e: E)
    requires
        st.inv(),
        st.err is None,
    ensures
        ({
            let (st1, out) = source_step(st, SourceEvent::<T, E>::Failed(e));
            &&& st.items.len() > 0 ==> {
                &&& out == StepView::<T, E, TE>::Batch(st.items)
                &&& st1.err == Some(Error::<E, TE>::Inner(e))
                &&& deferred_step(st1).1 == Some(Error::<E, TE>::Inner(e))
                &&& deferred_step(st1).0.err is None
            }
            &&& st.items.len() == 0 ==> out == StepView::<T, E, TE>::Fail(Error::Inner(e))
                && st1 == st
        }),
{
}

/// Error ordering for a timer failure: the same two-advance pattern as for
/// a source failure, with the error tagged as the timer's instead.
pub proof fn lemma_error_ordering_timer<T, E, TE>(st: ChunksView<T, E, TE>, te: TE)
    requires
        st.inv(),
        st.err is None,
    ensures
        ({
            let (st1, out) = timer_step(st, TimerEvent::<TE>::Failed(te));
            &&& st.items.len() > 0 ==> {
                &&& out == StepView::<T, E, TE>::Batch(st.items)
                &&& st1.err == Some(Error::<E, TE>::Timer(te))
                &&& deferred_step(st1).1 == Some(Error::<E, TE>::Timer(te))
                &&& deferred_step(st1).0.err is None
            }
            &&& st.items.len() == 0 ==> out == StepView::<T, E, TE>::Fail(Error::Timer(te))
                && st1 == st
        }),
{
}

} // verus!
