use vstd::prelude::*;

use crate::middleware::{Duplicate, Middleware, Status};

verus! {

/// Where the enter phase stands after visiting a prefix of the linked
/// middleware.
pub struct EnterPass<M, Req, Res, Ex> {
    /// The linked middleware, those already entered in the state `enter`
    /// left them in.
    pub stack: Seq<M>,
    /// Copies of the middleware whose `enter` returned `Continue`, in the
    /// order they were entered.
    pub trace: Seq<M>,
    /// How many middleware had `enter` invoked.
    pub entered: nat,
    pub req: Req,
    pub res: Res,
    pub ex: Ex,
    /// `Unwind` once some middleware has unwound, `Continue` before that.
    pub status: Status,
}

/// Where the exit phase stands after visiting a prefix of the exit trace.
pub struct ExitPass<M, Req, Res, Ex> {
    /// The exit trace, those already exited in the state `exit` left them in.
    pub trace: Seq<M>,
    pub req: Req,
    pub res: Res,
    pub ex: Ex,
}

/// The enter phase over the first `n` middleware of `ms`: `enter` is invoked
/// on each in turn, a copy of each that continues is added to the trace, and
/// the first one to unwind ends the phase without being added.
pub open spec fn enter_pass<M: Middleware<Req, Res, Ex>, Req: View, Res: View, Ex: View>(
    ms: Seq<M>,
    n: nat,
    req: Req::V,
    res: Res::V,
    ex: Ex::V,
) -> EnterPass<M, Req::V, Res::V, Ex::V>
    decreases n,
{
    if n == 0 {
        EnterPass { stack: ms, trace: Seq::empty(), entered: 0, req, res, ex, status: Status::Continue }
    } else {
        let p = enter_pass::<M, Req, Res, Ex>(ms, (n - 1) as nat, req, res, ex);
        if p.status == Status::Unwind {
            p
        } else {
            let v = ms[n - 1].enter_spec(p.req, p.res, p.ex);
            EnterPass {
                stack: p.stack.update(n - 1, v.mw),
                trace: if v.status == Status::Continue {
                    p.trace.push(v.mw)
                } else {
                    p.trace
                },
                entered: n,
                req: v.req,
                res: v.res,
                ex: v.ex,
                status: v.status,
            }
        }
    }
}

/// The exit phase over the first `n` middleware of `t`: `exit` is invoked on
/// each in turn, whatever signal the earlier ones returned.
pub open spec fn exit_pass<M: Middleware<Req, Res, Ex>, Req: View, Res: View, Ex: View>(
    t: Seq<M>,
    n: nat,
    req: Req::V,
    res: Res::V,
    ex: Ex::V,
) -> ExitPass<M, Req::V, Res::V, Ex::V>
    decreases n,
{
    if n == 0 {
        ExitPass { trace: t, req, res, ex }
    } else {
        let p = exit_pass::<M, Req, Res, Ex>(t, (n - 1) as nat, req, res, ex);
        let v = t[n - 1].exit_spec(p.req, p.res, p.ex);
        ExitPass { trace: p.trace.update(n - 1, v.mw), req: v.req, res: v.res, ex: v.ex }
    }
}

/// The enter phase over all of `ms`.
pub open spec fn full_enter<M: Middleware<Req, Res, Ex>, Req: View, Res: View, Ex: View>(
    ms: Seq<M>,
    req: Req::V,
    res: Res::V,
    ex: Ex::V,
) -> EnterPass<M, Req::V, Res::V, Ex::V> {
    enter_pass::<M, Req, Res, Ex>(ms, ms.len(), req, res, ex)
}

/// The exit phase over all of `t`, last-entered first.
pub open spec fn full_exit<M: Middleware<Req, Res, Ex>, Req: View, Res: View, Ex: View>(
    t: Seq<M>,
    req: Req::V,
    res: Res::V,
    ex: Ex::V,
) -> ExitPass<M, Req::V, Res::V, Ex::V> {
    exit_pass::<M, Req, Res, Ex>(t.reverse(), t.len(), req, res, ex)
}

/// Where a whole dispatch ends: the enter phase over the linked middleware,
/// then the exit phase over the trace it built, starting from the values
/// the enter phase left.
pub struct DispatchPass<M, Req, Res, Ex> {
    pub stack: Seq<M>,
    pub trace: Seq<M>,
    pub req: Req,
    pub res: Res,
    pub ex: Ex,
    /// The signal of the enter phase.
    pub status: Status,
}

/// A whole dispatch over `ms`.
pub open spec fn full_dispatch<M: Middleware<Req, Res, Ex>, Req: View, Res: View, Ex: View>(
    ms: Seq<M>,
    req: Req::V,
    res: Res::V,
    ex: Ex::V,
) -> DispatchPass<M, Req::V, Res::V, Ex::V> {
    let p = full_enter::<M, Req, Res, Ex>(ms, req, res, ex);
    let q = full_exit::<M, Req, Res, Ex>(p.trace, p.req, p.res, p.ex);
    DispatchPass { stack: p.stack, trace: q.trace, req: q.req, res: q.res, ex: q.ex, status: p.status }
}

/// What the enter phase has built after `n` steps: the unvisited middleware
/// are untouched, the trace is the entered prefix less any that unwound, and
/// each trace entry equals the middleware it was copied from.
pub proof fn lemma_enter_pass_shape<M: Middleware<Req, Res, Ex>, Req: View, Res: View, Ex: View>(
    ms: Seq<M>,
    n: nat,
    req: Req::V,
    res: Res::V,
    ex: Ex::V,
)
    requires
        n <= ms.len(),
    ensures
        ({
            let p = enter_pass::<M, Req, Res, Ex>(ms, n, req, res, ex);
            &&& p.stack.len() == ms.len()
            &&& forall|j: int| n <= j < ms.len() ==> p.stack[j] == ms[j]
            &&& p.entered <= n
            &&& p.status == Status::Continue ==> p.entered == n && p.trace.len() == n
            &&& p.status == Status::Unwind ==> p.entered >= 1 && p.trace.len() + 1 == p.entered
            &&& forall|j: int| 0 <= j < p.trace.len() ==> p.trace[j] == p.stack[j]
        }),
    decreases n,
{
    if n > 0 {
        lemma_enter_pass_shape::<M, Req, Res, Ex>(ms, (n - 1) as nat, req, res, ex);
    }
}

/// Once a middleware has unwound, visiting more steps changes nothing.
pub proof fn lemma_unwound_stays<M: Middleware<Req, Res, Ex>, Req: View, Res: View, Ex: View>(
    ms: Seq<M>,
    n: nat,
    m: nat,
    req: Req::V,
    res: Res::V,
    ex: Ex::V,
)
    requires
        n <= m,
        enter_pass::<M, Req, Res, Ex>(ms, n, req, res, ex).status == Status::Unwind,
    ensures
        enter_pass::<M, Req, Res, Ex>(ms, m, req, res, ex) == enter_pass::<M, Req, Res, Ex>(ms, n, req, res, ex),
    decreases m,
{
    if m > n {
        lemma_unwound_stays::<M, Req, Res, Ex>(ms, n, (m - 1) as nat, req, res, ex);
    }
}

/// The exit phase keeps the trace's length.
pub proof fn lemma_exit_pass_len<M: Middleware<Req, Res, Ex>, Req: View, Res: View, Ex: View>(
    t: Seq<M>,
    n: nat,
    req: Req::V,
    res: Res::V,
    ex: Ex::V,
)
    requires
        n <= t.len(),
    ensures
        exit_pass::<M, Req, Res, Ex>(t, n, req, res, ex).trace.len() == t.len(),
        forall|j: int| n <= j < t.len() ==> exit_pass::<M, Req, Res, Ex>(t, n, req, res, ex).trace[j] == t[j],
    decreases n,
{
    if n > 0 {
        lemma_exit_pass_len::<M, Req, Res, Ex>(t, (n - 1) as nat, req, res, ex);
    }
}

/// A chain that runs each request through its middleware in the order they
/// were linked, and back out through those that entered, in reverse.
///
/// One chain value is not meant to be dispatched from two threads at once:
/// the exit trace is rebuilt by every enter phase.
pub struct StackChain<M> {
    stack: Vec<M>,
    exit_stack: Vec<M>,
}

impl<M> StackChain<M> {
    /// Well-formedness: the exit trace never holds more middleware than are
    /// linked.
    pub closed spec fn wf(self) -> bool {
        self.exit_stack@.len() <= self.stack@.len()
    }

    /// The middleware linked so far, in the order they were linked.
    pub closed spec fn linked(self) -> Seq<M> {
        self.stack@
    }

    /// The middleware recorded by the last enter phase for the exit phase.
    pub closed spec fn trace(self) -> Seq<M> {
        self.exit_stack@
    }

    /// A chain with no middleware.
    pub fn new() -> (r: Self)
        ensures
            r.wf(),
            r.linked() == Seq::<M>::empty(),
            r.trace() == Seq::<M>::empty(),
    {
        StackChain { stack: Vec::new(), exit_stack: Vec::new() }
    }

    /// A chain holding the given middleware, in the given order.
    pub fn from_iter(ms: Vec<M>) -> (r: Self)
        ensures
            r.wf(),
            r.linked() == ms@,
            r.trace() == Seq::<M>::empty(),
    {
        StackChain { stack: ms, exit_stack: Vec::new() }
    }

    /// Adds a middleware after those already linked.
    pub fn link(&mut self, middleware: M)
        requires
            old(self).wf(),
        ensures
            final(self).wf(),
            final(self).linked() == old(self).linked().push(middleware),
            final(self).trace() == old(self).trace(),
    {
        self.stack.push(middleware);
    }

    /// Runs the enter phase, then the exit phase over what it recorded, and
    /// returns the signal of the enter phase. The exit phase runs whether or
    /// not the enter phase unwound.
    pub fn dispatch<Req: View, Res: View, Ex: View>(&mut self, req: &mut Req, res: &mut Res, ex: &mut Ex) -> (r:
        Status) where M: Middleware<Req, Res, Ex>
        ensures
            final(self).wf(),
            ({
                let d = full_dispatch::<M, Req, Res, Ex>(old(self).linked(), old(req)@, old(res)@, old(ex)@);
                &&& final(self).linked() == d.stack
                &&& final(self).trace() == d.trace
                &&& final(req)@ == d.req
                &&& final(res)@ == d.res
                &&& final(ex)@ == d.ex
                &&& r == d.status
            }),
    {
        let status = self.chain_enter(req, res, ex);
        let _ = self.chain_exit(req, res, ex);
        status
    }

    /// Runs the enter phase: `enter` on each middleware in the order they
    /// were linked, until one returns `Unwind`. The exit trace is rebuilt from
    /// scratch and holds copies of those that returned `Continue`.
    pub fn chain_enter<Req: View, Res: View, Ex: View>(&mut self, req: &mut Req, res: &mut Res, ex: &mut Ex) -> (r:
        Status) where M: Middleware<Req, Res, Ex>
        ensures
            final(self).wf(),
            ({
                let p = full_enter::<M, Req, Res, Ex>(old(self).linked(), old(req)@, old(res)@, old(ex)@);
                &&& final(self).linked() == p.stack
                &&& final(self).trace() == p.trace
                &&& final(req)@ == p.req
                &&& final(res)@ == p.res
                &&& final(ex)@ == p.ex
                &&& r == p.status
            }),
    {
        let ghost ms = self.stack@;
        let ghost req0 = req@;
        let ghost res0 = res@;
        let ghost ex0 = ex@;
        self.exit_stack = Vec::new();
        let n = self.stack.len();
        let mut i: usize = 0;
        while i < n
            invariant
                i <= n,
                n == ms.len(),
                ms == old(self).stack@,
                req0 == old(req)@,
                res0 == old(res)@,
                ex0 == old(ex)@,
                ({
                    let p = enter_pass::<M, Req, Res, Ex>(ms, i as nat, req0, res0, ex0);
                    &&& p.status == Status::Continue
                    &&& self.stack@ == p.stack
                    &&& self.exit_stack@ == p.trace
                    &&& req@ == p.req
                    &&& res@ == p.res
                    &&& ex@ == p.ex
                }),
            decreases n - i,
        {
            proof {
                lemma_enter_pass_shape::<M, Req, Res, Ex>(ms, i as nat, req0, res0, ex0);
            }
            let s = self.stack[i].enter(req, res, ex);
            if s == Status::Unwind {
                proof {
                    lemma_unwound_stays::<M, Req, Res, Ex>(ms, (i + 1) as nat, n as nat, req0, res0, ex0);
                }
                return Status::Unwind;
            }
            let copy = self.stack[i].duplicate();
            self.exit_stack.push(copy);
            i += 1;
        }
        proof {
            lemma_enter_pass_shape::<M, Req, Res, Ex>(ms, n as nat, req0, res0, ex0);
        }
        Status::Continue
    }

    /// Runs the exit phase: the exit trace is reversed in place, then `exit`
    /// is invoked on each of its middleware, last-entered first. The signals
    /// they return are ignored, so every traced middleware is exited.
    pub fn chain_exit<Req: View, Res: View, Ex: View>(&mut self, req: &mut Req, res: &mut Res, ex: &mut Ex) -> (r:
        Status) where M: Middleware<Req, Res, Ex>
        requires
            old(self).wf(),
        ensures
            final(self).wf(),
            ({
                let p = full_exit::<M, Req, Res, Ex>(old(self).trace(), old(req)@, old(res)@, old(ex)@);
                &&& final(self).linked() == old(self).linked()
                &&& final(self).trace() == p.trace
                &&& final(req)@ == p.req
                &&& final(res)@ == p.res
                &&& final(ex)@ == p.ex
                &&& r == Status::Continue
            }),
    {
        let ghost t = self.exit_stack@;
        let ghost req0 = req@;
        let ghost res0 = res@;
        let ghost ex0 = ex@;
        let mut rest: Vec<M> = Vec::new();
        std::mem::swap(&mut rest, &mut self.exit_stack);
        let mut reversed: Vec<M> = Vec::new();
        while rest.len() > 0
            invariant
                reversed@.len() + rest@.len() == t.len(),
                rest@ == t.subrange(0, rest@.len() as int),
                forall|j: int| 0 <= j < reversed@.len() ==> reversed@[j] == t[t.len() - 1 - j],
            decreases rest@.len(),
        {
            let m = rest.pop().unwrap();
            reversed.push(m);
            assert(rest@ =~= t.subrange(0, rest@.len() as int));
        }
        assert(reversed@ =~= t.reverse());
        self.exit_stack = reversed;
        let n = self.exit_stack.len();
        let mut i: usize = 0;
        while i < n
            invariant
                i <= n,
                n == t.len(),
                t == old(self).exit_stack@,
                req0 == old(req)@,
                res0 == old(res)@,
                ex0 == old(ex)@,
                self.stack@ == old(self).stack@,
                ({
                    let p = exit_pass::<M, Req, Res, Ex>(t.reverse(), i as nat, req0, res0, ex0);
                    &&& self.exit_stack@ == p.trace
                    &&& req@ == p.req
                    &&& res@ == p.res
                    &&& ex@ == p.ex
                }),
            decreases n - i,
        {
            proof {
                lemma_exit_pass_len::<M, Req, Res, Ex>(t.reverse(), i as nat, req0, res0, ex0);
            }
            let _ = self.exit_stack[i].exit(req, res, ex);
            i += 1;
        }
        proof {
            lemma_exit_pass_len::<M, Req, Res, Ex>(t.reverse(), n as nat, req0, res0, ex0);
        }
        Status::Continue
    }
}

/// Copies of each element of `v`, in order.
fn duplicate_all<M: Duplicate>(v: &Vec<M>) -> (r: Vec<M>)
    ensures
        r@ == v@,
{
    let mut r: Vec<M> = Vec::new();
    let mut i: usize = 0;
    while i < v.len()
        invariant
            i <= v@.len(),
            r@ == v@.subrange(0, i as int),
        decreases v@.len() - i,
    {
        r.push(v[i].duplicate());
        i += 1;
        assert(r@ =~= v@.subrange(0, i as int));
    }
    assert(r@ =~= v@);
    r
}

impl<M: Duplicate> Clone for StackChain<M> {
    /// A chain with copies of this chain's middleware and exit trace.
    fn clone(&self) -> (r: Self)
        ensures
            self.wf() ==> r.wf(),
            r.linked() == self.linked(),
            r.trace() == self.trace(),
    {
        StackChain { stack: duplicate_all(&self.stack), exit_stack: duplicate_all(&self.exit_stack) }
    }
}

} // verus!
