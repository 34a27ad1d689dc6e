//! Why the translation does not depend on where the input is cut into calls.
use vstd::prelude::*;
use crate::sequence::{
    Action, Outcome, Step, Stop, CSI, ESC, OSC, csi_end, csi_outcome, lemma_contains_find,
    lemma_find_first, lemma_find_first_extend, lemma_osc_bounds, lemma_step_bounds, osc_argument,
    osc_end, osc_id, osc_id_end, osc_outcome, run, step,
};

verus! {

/// A step that completes a unit takes the same decision whatever follows.
pub proof fn lemma_step_extend(d: Seq<u8>, e: Seq<u8>)
    requires
        !(step(d) is Suspend),
    ensures
        step(d + e) == step(d),
{
    let de = d + e;
    assert(de[0] == d[0]);
    if d[0] == ESC && d.len() >= 2 {
        assert(de[1] == d[1]);
        let body = d.skip(2);
        let body2 = de.skip(2);
        assert(body2 =~= body + e);
        if d[1] == OSC {
            lemma_osc_bounds(body);
            lemma_contains_find(body);
            lemma_contains_find(body2);
            lemma_find_first_extend(body, e, 0, Stop::Bel);
            lemma_find_first_extend(body, e, 0, Stop::IdEnd);
            assert(osc_end(body2) == osc_end(body));
            assert(osc_id_end(body2) == osc_id_end(body));
            let k = osc_id_end(body);
            assert(body2.take(k) =~= body.take(k));
            assert(osc_argument(body2) =~= osc_argument(body));
            assert(osc_id(body2) == osc_id(body));
            assert(osc_outcome(body2) == osc_outcome(body));
        } else if d[1] == CSI {
            lemma_find_first(body, 0, Stop::CsiEnd);
            lemma_find_first_extend(body, e, 0, Stop::CsiEnd);
            assert(body2[csi_end(body)] == body[csi_end(body)]);
            assert(body2.take(csi_end(body)) =~= body.take(csi_end(body)));
            assert(csi_outcome(body2) == csi_outcome(body));
        }
    }
}

/// Running on `d + e` is running on `d`, then on what `d` left kept, with
/// `e` appended; a fault within `d` ends both runs in the same way.
pub proof fn lemma_run_extend(d: Seq<u8>, e: Seq<u8>)
    ensures
        run(d).fault.is_some() ==> run(d + e) == run(d),
        run(d).fault.is_none() ==> {
            let kept = d.skip(run(d).consumed as int);
            &&& run(d + e).actions == run(d).actions + run(kept + e).actions
            &&& run(d + e).fault == run(kept + e).fault
            &&& run(d + e).consumed == run(d).consumed + run(kept + e).consumed
        },
    decreases d.len(),
{
    lemma_step_bounds(d);
    match step(d) {
        Step::Suspend => {
            assert(d.skip(0) =~= d);
            assert(run(d).actions + run(d + e).actions =~= run(d + e).actions);
        },
        Step::Emit(a, n) => {
            lemma_step_extend(d, e);
            let rest = d.skip(n as int);
            assert((d + e).skip(n as int) =~= rest + e);
            lemma_run_extend(rest, e);
            if run(rest).fault.is_none() {
                let c = run(rest).consumed;
                lemma_run_bound(rest);
                assert(rest.skip(c as int) =~= d.skip((n + c) as int));
                assert((d + e).len() >= n);
                let x = run(d + e);
                assert(x.actions =~= run(d).actions + run(rest.skip(c as int) + e).actions);
            }
        },
        Step::Fail(f, n) => {
            lemma_step_extend(d, e);
        },
    }
}

/// After a run that ends without a fault, what is kept cannot make progress.
pub proof fn lemma_run_leaves_suspended(d: Seq<u8>)
    requires
        run(d).fault.is_none(),
    ensures
        run(d).consumed <= d.len(),
        step(d.skip(run(d).consumed as int)) is Suspend,
    decreases d.len(),
{
    lemma_step_bounds(d);
    match step(d) {
        Step::Suspend => {
            assert(d.skip(0) =~= d);
        },
        Step::Emit(a, n) => {
            let rest = d.skip(n as int);
            lemma_run_leaves_suspended(rest);
            assert(rest.skip(run(rest).consumed as int) =~= d.skip((n + run(rest).consumed) as int));
        },
        Step::Fail(f, n) => {},
    }
}

/// Bytes without an introducer are forwarded one for one, in order, with no
/// fault and nothing kept, so the same holds however they are cut into calls.
pub proof fn plain_bytes_pass_through(d: Seq<u8>)
    requires
        !d.contains(ESC),
    ensures
        run(d).actions == d.map_values(|b: u8| Action::Forward(b)),
        run(d).consumed == d.len(),
        run(d).fault.is_none(),
    decreases d.len(),
{
    if d.len() > 0 {
        assert(d[0] != ESC);
        let rest = d.skip(1);
        assert(!rest.contains(ESC)) by {
            if rest.contains(ESC) {
                let x = choose|x: int| 0 <= x < rest.len() && rest[x] == ESC;
                assert(d[x + 1] == ESC);
            }
        }
        plain_bytes_pass_through(rest);
        assert(d.map_values(|b: u8| Action::Forward(b)) =~= seq![Action::Forward(d[0])]
            + rest.map_values(|b: u8| Action::Forward(b)));
    }
}

/// Two calls with plain bytes `a` and `b` forward exactly `a + b`: the first
/// keeps nothing, and the second starts from `b` alone.
pub proof fn plain_chunks_pass_through(a: Seq<u8>, b: Seq<u8>)
    requires
        !a.contains(ESC),
        !b.contains(ESC),
    ensures
        a.skip(run(a).consumed as int) + b == b,
        run(a).actions + run(b).actions == (a + b).map_values(|x: u8| Action::Forward(x)),
{
    plain_bytes_pass_through(a);
    plain_bytes_pass_through(b);
    assert(a.skip(a.len() as int) + b =~= b);
    assert(run(a).actions + run(b).actions =~= (a + b).map_values(|x: u8| Action::Forward(x)));
}

/// Writing `a` and then `b` onto kept bytes `p` gives, in total, the same
/// actions, the same fault and the same bytes kept at the end as writing
/// `a + b` at once. If the first call stops on a fault, the single call
/// stops on the same fault after the same actions.
pub proof fn split_write_equivalence(p: Seq<u8>, a: Seq<u8>, b: Seq<u8>)
    ensures
        ({
            let first = run(p + a);
            let kept = (p + a).skip(first.consumed as int);
            let second = run(kept + b);
            let whole = run(p + (a + b));
            &&& first.fault.is_some() ==> whole.actions == first.actions && whole.fault
                == first.fault
            &&& first.fault.is_none() ==> {
                &&& whole.actions == first.actions + second.actions
                &&& whole.fault == second.fault
                &&& (kept + b).skip(second.consumed as int) == (p + (a + b)).skip(
                    whole.consumed as int,
                )
            }
        }),
{
    assert(p + (a + b) =~= (p + a) + b);
    lemma_run_extend(p + a, b);
    let first = run(p + a);
    if first.fault.is_none() {
        lemma_run_bound(p + a);
        let kept = (p + a).skip(first.consumed as int);
        let second = run(kept + b);
        assert((kept + b).skip(second.consumed as int) =~= (p + (a + b)).skip(
            (first.consumed + second.consumed) as int,
        )) by {
            lemma_run_bound(kept + b);
        }
    }
}

/// What successive calls of `write` with the buffers `calls` produce, from
/// kept bytes `p`: the actions of all calls, the fault that ended them (a
/// fault is fatal, so no call after it counts), and the bytes kept at the end.
pub open spec fn run_calls(p: Seq<u8>, calls: Seq<Seq<u8>>) -> (Seq<Action>, Option<
    crate::sequence::Fault,
>, Seq<u8>)
    decreases calls.len(),
{
    if calls.len() == 0 {
        (Seq::empty(), None, p)
    } else {
        let d = p + calls[0];
        let r = run(d);
        let kept = d.skip(r.consumed as int);
        if r.fault.is_some() {
            (r.actions, r.fault, kept)
        } else {
            let rest = run_calls(kept, calls.drop_first());
            (r.actions + rest.0, rest.1, rest.2)
        }
    }
}

/// However a byte stream is cut into calls, the calls together give the
/// same actions, in the same order, and the same fault as one call with the
/// whole stream; without a fault they also keep the same bytes at the end.
/// `p` is what an adapter keeps between calls: nothing at first, and after a
/// call without a fault, bytes on which no step can be taken.
pub proof fn split_calls_equivalence(p: Seq<u8>, calls: Seq<Seq<u8>>)
    requires
        step(p) is Suspend,
    ensures
        run_calls(p, calls).0 == run(p + calls.flatten()).actions,
        run_calls(p, calls).1 == run(p + calls.flatten()).fault,
        run_calls(p, calls).1.is_none() ==> run_calls(p, calls).2 == (p + calls.flatten()).skip(
            run(p + calls.flatten()).consumed as int,
        ),
    decreases calls.len(),
{
    if calls.len() == 0 {
        assert(p + calls.flatten() =~= p);
        assert(p.skip(0) =~= p);
    } else {
        let a = calls[0];
        let tail = calls.drop_first();
        assert(calls.flatten() == a + tail.flatten());
        assert(p + calls.flatten() =~= (p + a) + tail.flatten());
        lemma_run_extend(p + a, tail.flatten());
        let r = run(p + a);
        if r.fault.is_none() {
            lemma_run_bound(p + a);
            let kept = (p + a).skip(r.consumed as int);
            lemma_run_leaves_suspended(p + a);
            split_calls_equivalence(kept, tail);
            let second = run(kept + tail.flatten());
            lemma_run_bound(kept + tail.flatten());
            assert((kept + tail.flatten()).skip(second.consumed as int) =~= (p + calls.flatten()).skip(
                (r.consumed + second.consumed) as int,
            ));
        }
    }
}

proof fn lemma_run_bound(d: Seq<u8>)
    ensures
        run(d).consumed <= d.len(),
    decreases d.len(),
{
    lemma_step_bounds(d);
    if let Step::Emit(_, n) = step(d) {
        lemma_run_bound(d.skip(n as int));
    }
}

/// After a call that ends without a fault, writing an empty buffer yields
/// no action and no fault, and keeps exactly the same bytes.
pub proof fn empty_write_changes_nothing(p: Seq<u8>, a: Seq<u8>)
    requires
        run(p + a).fault.is_none(),
    ensures
        ({
            let kept = (p + a).skip(run(p + a).consumed as int);
            &&& run(kept + Seq::<u8>::empty()) == (Outcome {
                actions: Seq::empty(),
                consumed: 0,
                fault: None,
            })
            &&& (kept + Seq::<u8>::empty()).skip(0) == kept
        }),
{
    lemma_run_leaves_suspended(p + a);
    let kept = (p + a).skip(run(p + a).consumed as int);
    assert(kept + Seq::<u8>::empty() =~= kept);
    assert(kept.skip(0) =~= kept);
}

} // verus!
