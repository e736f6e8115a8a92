use vstd::prelude::*;

use crate::middleware::{events_of, event_of, Event, Middleware, Phase, Recorder, Status};
use crate::stackchain::{
    enter_pass, exit_pass, full_dispatch, full_enter, full_exit, lemma_enter_pass_shape,
    DispatchPass, EnterPass, ExitPass,
};

verus! {

/// After `n` enter steps over recorders: the recorders are unchanged, those
/// entered so far each added one `Enter` event, the trace is the prefix that
/// continued, and the phase stopped at the first recorder set to unwind.
pub proof fn lemma_recorders_enter<Req: View, Res: View>(
    ms: Seq<Recorder>,
    n: nat,
    req: Req::V,
    res: Res::V,
    log: Seq<Event>,
)
    requires
        n <= ms.len(),
    ensures
        ({
            let p = enter_pass::<Recorder, Req, Res, Vec<Event>>(ms, n, req, res, log);
            let k = p.trace.len();
            &&& p.stack == ms
            &&& p.req == req
            &&& p.res == res
            &&& p.trace == ms.subrange(0, k as int)
            &&& forall|j: int| 0 <= j < k ==> ms[j].on_enter == Status::Continue
            &&& p.status == Status::Continue ==> k == n && p.entered == n
            &&& p.status == Status::Unwind ==> k < n && ms[k as int].on_enter == Status::Unwind
                && p.entered == k + 1
            &&& p.ex == log + events_of(ms.subrange(0, p.entered as int), Phase::Enter)
        }),
    decreases n,
{
    if n == 0 {
        assert(events_of(ms.subrange(0, 0), Phase::Enter) =~= Seq::<Event>::empty());
        assert(log + Seq::<Event>::empty() =~= log);
        assert(ms.subrange(0, 0) =~= Seq::<Recorder>::empty());
    } else {
        let m = (n - 1) as nat;
        lemma_recorders_enter::<Req, Res>(ms, m, req, res, log);
        let p = enter_pass::<Recorder, Req, Res, Vec<Event>>(ms, m, req, res, log);
        if p.status == Status::Continue {
            let q = enter_pass::<Recorder, Req, Res, Vec<Event>>(ms, n, req, res, log);
            assert(p.stack.update(m as int, ms[m as int]) =~= ms);
            assert(events_of(ms.subrange(0, n as int), Phase::Enter) =~= events_of(
                ms.subrange(0, m as int),
                Phase::Enter,
            ).push(event_of(ms[m as int], Phase::Enter)));
            assert(q.ex =~= log + events_of(ms.subrange(0, n as int), Phase::Enter));
            if ms[m as int].on_enter == Status::Continue {
                assert(q.trace =~= ms.subrange(0, n as int));
            }
        }
    }
}

/// After `n` exit steps over recorders: nothing but the log changes, and it
/// gains one `Exit` event for each of the first `n`, in order, whatever
/// signals they return.
pub proof fn lemma_recorders_exit<Req: View, Res: View>(
    t: Seq<Recorder>,
    n: nat,
    req: Req::V,
    res: Res::V,
    log: Seq<Event>,
)
    requires
        n <= t.len(),
    ensures
        ({
            let p = exit_pass::<Recorder, Req, Res, Vec<Event>>(t, n, req, res, log);
            &&& p.trace == t
            &&& p.req == req
            &&& p.res == res
            &&& p.ex == log + events_of(t.subrange(0, n as int), Phase::Exit)
        }),
    decreases n,
{
    if n == 0 {
        assert(events_of(t.subrange(0, 0), Phase::Exit) =~= Seq::<Event>::empty());
        assert(log + Seq::<Event>::empty() =~= log);
    } else {
        let m = (n - 1) as nat;
        lemma_recorders_exit::<Req, Res>(t, m, req, res, log);
        assert(t.update(m as int, t[m as int]) =~= t);
        assert(events_of(t.subrange(0, n as int), Phase::Exit) =~= events_of(
            t.subrange(0, m as int),
            Phase::Exit,
        ).push(event_of(t[m as int], Phase::Exit)));
        assert((log + events_of(t.subrange(0, m as int), Phase::Exit)).push(
            event_of(t[m as int], Phase::Exit),
        ) =~= log + events_of(t.subrange(0, n as int), Phase::Exit));
    }
}

/// Where the enter phase over `n` steps has unwound, it unwound at step
/// `entered` and nothing changed after that.
proof fn lemma_unwind_point<M: Middleware<Req, Res, Ex>, Req: View, Res: View, Ex: View>(
    ms: Seq<M>,
    n: nat,
    req: Req::V,
    res: Res::V,
    ex: Ex::V,
)
    requires
        enter_pass::<M, Req, Res, Ex>(ms, n, req, res, ex).status == Status::Unwind,
    ensures
        ({
            let p = enter_pass::<M, Req, Res, Ex>(ms, n, req, res, ex);
            &&& 1 <= p.entered <= n
            &&& enter_pass::<M, Req, Res, Ex>(ms, (p.entered - 1) as nat, req, res, ex).status
                == Status::Continue
            &&& enter_pass::<M, Req, Res, Ex>(ms, p.entered, req, res, ex) == p
        }),
    decreases n,
{
    let p = enter_pass::<M, Req, Res, Ex>(ms, (n - 1) as nat, req, res, ex);
    if p.status == Status::Unwind {
        lemma_unwind_point::<M, Req, Res, Ex>(ms, (n - 1) as nat, req, res, ex);
    }
}

/// When every recorder continues on enter, the enter phase calls `enter` on
/// each of them exactly once, in the order they were linked, and continues.
pub proof fn lemma_enter_in_link_order<Req: View, Res: View>(
    ms: Seq<Recorder>,
    req: Req::V,
    res: Res::V,
    log: Seq<Event>,
)
    requires
        forall|j: int| 0 <= j < ms.len() ==> ms[j].on_enter == Status::Continue,
    ensures
        ({
            let p = full_enter::<Recorder, Req, Res, Vec<Event>>(ms, req, res, log);
            &&& p.status == Status::Continue
            &&& p.entered == ms.len()
            &&& p.ex == log + events_of(ms, Phase::Enter)
        }),
{
    lemma_recorders_enter::<Req, Res>(ms, ms.len(), req, res, log);
    assert(ms.subrange(0, ms.len() as int) =~= ms);
}

/// A dispatch over recorders exits exactly those that continued on enter:
/// the prefix before the first one set to unwind (or all of them), each
/// once, in reverse order.
pub proof fn lemma_exit_mirrors_enter<Req: View, Res: View>(
    ms: Seq<Recorder>,
    req: Req::V,
    res: Res::V,
    log: Seq<Event>,
)
    ensures
        ({
            let p = full_enter::<Recorder, Req, Res, Vec<Event>>(ms, req, res, log);
            let d = full_dispatch::<Recorder, Req, Res, Vec<Event>>(ms, req, res, log);
            let k = p.trace.len();
            &&& forall|j: int| 0 <= j < k ==> ms[j].on_enter == Status::Continue
            &&& k == ms.len() || ms[k as int].on_enter == Status::Unwind
            &&& d.ex == p.ex + events_of(ms.subrange(0, k as int).reverse(), Phase::Exit)
        }),
{
    lemma_recorders_enter::<Req, Res>(ms, ms.len(), req, res, log);
    let p = full_enter::<Recorder, Req, Res, Vec<Event>>(ms, req, res, log);
    let t = p.trace.reverse();
    lemma_recorders_exit::<Req, Res>(t, p.trace.len(), p.req, p.res, p.ex);
    assert(t.subrange(0, p.trace.len() as int) =~= t);
}

/// The middleware that unwinds is not in the exit trace: the trace holds
/// copies of exactly those entered before it, so its `exit` is never called.
pub proof fn lemma_unwinder_not_traced<M: Middleware<Req, Res, Ex>, Req: View, Res: View, Ex: View>(
    ms: Seq<M>,
    req: Req::V,
    res: Res::V,
    ex: Ex::V,
)
    requires
        full_enter::<M, Req, Res, Ex>(ms, req, res, ex).status == Status::Unwind,
    ensures
        ({
            let p = full_enter::<M, Req, Res, Ex>(ms, req, res, ex);
            let u = p.trace.len();
            let before = enter_pass::<M, Req, Res, Ex>(ms, u, req, res, ex);
            &&& u < ms.len()
            &&& p.entered == u + 1
            &&& before.status == Status::Continue
            &&& ms[u as int].enter_spec(before.req, before.res, before.ex).status == Status::Unwind
            &&& forall|j: int| 0 <= j < u ==> p.trace[j] == p.stack[j]
        }),
{
    lemma_unwind_point::<M, Req, Res, Ex>(ms, ms.len(), req, res, ex);
    lemma_enter_pass_shape::<M, Req, Res, Ex>(ms, ms.len(), req, res, ex);
    let p = full_enter::<M, Req, Res, Ex>(ms, req, res, ex);
    lemma_enter_pass_shape::<M, Req, Res, Ex>(ms, (p.entered - 1) as nat, req, res, ex);
}

/// When the trace is not empty, the exit phase ends with a call of `exit` on
/// the first middleware that entered.
pub proof fn lemma_exit_reaches_first_entered<M: Middleware<Req, Res, Ex>, Req: View, Res: View, Ex: View>(
    t: Seq<M>,
    req: Req::V,
    res: Res::V,
    ex: Ex::V,
)
    requires
        t.len() > 0,
    ensures
        ({
            let p = exit_pass::<M, Req, Res, Ex>(t.reverse(), (t.len() - 1) as nat, req, res, ex);
            let v = t[0].exit_spec(p.req, p.res, p.ex);
            let q = full_exit::<M, Req, Res, Ex>(t, req, res, ex);
            &&& q.req == v.req
            &&& q.res == v.res
            &&& q.ex == v.ex
            &&& q.trace == p.trace.update(t.len() - 1, v.mw)
        }),
{
    assert(t.reverse()[t.len() - 1] == t[0]);
}

/// A chain with no middleware calls nothing: every phase continues and
/// leaves the request, the response and the extras as they were.
pub proof fn lemma_empty_chain<M: Middleware<Req, Res, Ex>, Req: View, Res: View, Ex: View>(
    req: Req::V,
    res: Res::V,
    ex: Ex::V,
)
    ensures
        full_enter::<M, Req, Res, Ex>(Seq::empty(), req, res, ex) == (EnterPass {
            stack: Seq::<M>::empty(),
            trace: Seq::<M>::empty(),
            entered: 0,
            req,
            res,
            ex,
            status: Status::Continue,
        }),
        full_exit::<M, Req, Res, Ex>(Seq::empty(), req, res, ex) == (ExitPass {
            trace: Seq::<M>::empty(),
            req,
            res,
            ex,
        }),
        full_dispatch::<M, Req, Res, Ex>(Seq::empty(), req, res, ex) == (DispatchPass {
            stack: Seq::<M>::empty(),
            trace: Seq::<M>::empty(),
            req,
            res,
            ex,
            status: Status::Continue,
        }),
{
    assert(Seq::<M>::empty().reverse() =~= Seq::<M>::empty());
}

/// The exit phase calls `exit` on every traced recorder, last-entered
/// first, whatever signals they return.
pub proof fn lemma_exit_signals_ignored<Req: View, Res: View>(
    t: Seq<Recorder>,
    req: Req::V,
    res: Res::V,
    log: Seq<Event>,
)
    ensures
        full_exit::<Recorder, Req, Res, Vec<Event>>(t, req, res, log).ex == log + events_of(
            t.reverse(),
            Phase::Exit,
        ),
{
    lemma_recorders_exit::<Req, Res>(t.reverse(), t.len(), req, res, log);
    assert(t.reverse().subrange(0, t.len() as int) =~= t.reverse());
}

/// Dispatching a chain of recorders leaves its middleware as they were, so a
/// second dispatch with fresh values calls the same middleware in the same
/// order and returns the same signal.
pub proof fn lemma_redispatch_repeats<Req: View, Res: View>(
    ms: Seq<Recorder>,
    req1: Req::V,
    res1: Res::V,
    log1: Seq<Event>,
    req2: Req::V,
    res2: Res::V,
    log2: Seq<Event>,
)
    ensures
        ({
            let d1 = full_dispatch::<Recorder, Req, Res, Vec<Event>>(ms, req1, res1, log1);
            let d2 = full_dispatch::<Recorder, Req, Res, Vec<Event>>(d1.stack, req2, res2, log2);
            &&& d1.stack == ms
            &&& d2.status == d1.status
            &&& d1.ex.subrange(log1.len() as int, d1.ex.len() as int) == d2.ex.subrange(
                log2.len() as int,
                d2.ex.len() as int,
            )
        }),
{
    lemma_recorders_enter::<Req, Res>(ms, ms.len(), req1, res1, log1);
    lemma_recorders_enter::<Req, Res>(ms, ms.len(), req2, res2, log2);
    lemma_exit_mirrors_enter::<Req, Res>(ms, req1, res1, log1);
    lemma_exit_mirrors_enter::<Req, Res>(ms, req2, res2, log2);
    let p1 = full_enter::<Recorder, Req, Res, Vec<Event>>(ms, req1, res1, log1);
    let p2 = full_enter::<Recorder, Req, Res, Vec<Event>>(ms, req2, res2, log2);
    let k1 = p1.trace.len();
    let k2 = p2.trace.len();
    if k1 < k2 {
        assert(ms[k1 as int].on_enter == Status::Continue);
    }
    if k2 < k1 {
        assert(ms[k2 as int].on_enter == Status::Continue);
    }
    assert(k1 == k2);
    let d1 = full_dispatch::<Recorder, Req, Res, Vec<Event>>(ms, req1, res1, log1);
    let d2 = full_dispatch::<Recorder, Req, Res, Vec<Event>>(ms, req2, res2, log2);
    let tail = events_of(ms.subrange(0, p1.entered as int), Phase::Enter) + events_of(
        ms.subrange(0, k1 as int).reverse(),
        Phase::Exit,
    );
    assert(d1.ex =~= log1 + tail);
    assert(d2.ex =~= log2 + tail);
    assert(d1.ex.subrange(log1.len() as int, d1.ex.len() as int) =~= tail);
    assert(d2.ex.subrange(log2.len() as int, d2.ex.len() as int) =~= tail);
}

} // verus!
