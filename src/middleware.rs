use vstd::prelude::*;

verus! {

/// The signal a middleware hands back from `enter` or `exit`.
#[derive(Clone, Copy, Debug, PartialEq, Eq, Structural)]
pub enum Status {
    /// Go on with the next middleware.
    Continue,
    /// Stop the forward pass here.
    Unwind,
}

/// What one call of `enter` or `exit` leaves behind: the middleware itself,
/// the views of the request, the response and the extras after the call, and
/// the signal it returned.
pub struct Visit<M, Req, Res, Ex> {
    pub mw: M,
    pub req: Req,
    pub res: Res,
    pub ex: Ex,
    pub status: Status,
}

/// A value that can hand out an independent copy of itself, equal to it.
pub trait Duplicate: Sized {
    fn duplicate(&self) -> (r: Self)
        ensures
            r == *self,
    ;
}

/// A unit of request handling with paired `enter` and `exit` operations.
///
/// Each operation is described by a spec function of the middleware and the
/// values it is handed, so a chain can state exactly what a pass over many
/// middleware does.
pub trait Middleware<Req: View, Res: View, Ex: View>: Duplicate {
    /// The effect of `enter` on this middleware and the views of the values
    /// it is handed.
    spec fn enter_spec(self, req: Req::V, res: Res::V, ex: Ex::V) -> Visit<
        Self,
        Req::V,
        Res::V,
        Ex::V,
    >;

    /// The effect of `exit` on this middleware and the views of the values it
    /// is handed.
    spec fn exit_spec(self, req: Req::V, res: Res::V, ex: Ex::V) -> Visit<
        Self,
        Req::V,
        Res::V,
        Ex::V,
    >;

    fn enter(&mut self, req: &mut Req, res: &mut Res, ex: &mut Ex) -> (r: Status)
        ensures
            old(self).enter_spec(old(req)@, old(res)@, old(ex)@) == (Visit {
                mw: *final(self),
                req: final(req)@,
                res: final(res)@,
                ex: final(ex)@,
                status: r,
            }),
    ;

    fn exit(&mut self, req: &mut Req, res: &mut Res, ex: &mut Ex) -> (r: Status)
        ensures
            old(self).exit_spec(old(req)@, old(res)@, old(ex)@) == (Visit {
                mw: *final(self),
                req: final(req)@,
                res: final(res)@,
                ex: final(ex)@,
                status: r,
            }),
    ;
}

/// A middleware that does nothing and always continues.
#[derive(Clone, Copy, Debug, PartialEq, Eq, Structural)]
pub struct Noop;

impl Duplicate for Noop {
    fn duplicate(&self) -> (r: Self) {
        Noop
    }
}

impl<Req: View, Res: View, Ex: View> Middleware<Req, Res, Ex> for Noop {
    open spec fn enter_spec(self, req: Req::V, res: Res::V, ex: Ex::V) -> Visit<
        Self,
        Req::V,
        Res::V,
        Ex::V,
    > {
        Visit { mw: self, req, res, ex, status: Status::Continue }
    }

    open spec fn exit_spec(self, req: Req::V, res: Res::V, ex: Ex::V) -> Visit<
        Self,
        Req::V,
        Res::V,
        Ex::V,
    > {
        Visit { mw: self, req, res, ex, status: Status::Continue }
    }

    fn enter(&mut self, _req: &mut Req, _res: &mut Res, _ex: &mut Ex) -> (r: Status) {
        Status::Continue
    }

    fn exit(&mut self, _req: &mut Req, _res: &mut Res, _ex: &mut Ex) -> (r: Status) {
        Status::Continue
    }
}

/// The two operations of a middleware.
#[derive(Clone, Copy, Debug, PartialEq, Eq, Structural)]
pub enum Phase {
    Enter,
    Exit,
}

/// One call of a `Recorder`: which one was called, and in which phase.
#[derive(Clone, Copy, Debug, PartialEq, Eq, Structural)]
pub struct Event {
    pub id: u64,
    pub phase: Phase,
}

/// A middleware that appends an event naming itself to the extras on every
/// call, and returns the signals it was built with.
#[derive(Clone, Copy, Debug, PartialEq, Eq, Structural)]
pub struct Recorder {
    pub id: u64,
    pub on_enter: Status,
    pub on_exit: Status,
}

impl Recorder {
    /// A recorder that continues on both operations.
    pub fn new(id: u64) -> (r: Self)
        ensures
            r == (Recorder { id, on_enter: Status::Continue, on_exit: Status::Continue }),
    {
        Recorder { id, on_enter: Status::Continue, on_exit: Status::Continue }
    }

    /// A recorder that returns the given signals.
    pub fn with_signals(id: u64, on_enter: Status, on_exit: Status) -> (r: Self)
        ensures
            r == (Recorder { id, on_enter, on_exit }),
    {
        Recorder { id, on_enter, on_exit }
    }
}

/// The event a recorder adds in the given phase.
pub open spec fn event_of(m: Recorder, phase: Phase) -> Event {
    Event { id: m.id, phase }
}

/// The events that the recorders `ms` add, one each, in order.
pub open spec fn events_of(ms: Seq<Recorder>, phase: Phase) -> Seq<Event> {
    ms.map_values(|m: Recorder| event_of(m, phase))
}

impl Duplicate for Recorder {
    fn duplicate(&self) -> (r: Self) {
        *self
    }
}

impl<Req: View, Res: View> Middleware<Req, Res, Vec<Event>> for Recorder {
    open spec fn enter_spec(self, req: Req::V, res: Res::V, ex: Seq<Event>) -> Visit<
        Self,
        Req::V,
        Res::V,
        Seq<Event>,
    > {
        Visit { mw: self, req, res, ex: ex.push(event_of(self, Phase::Enter)), status: self.on_enter }
    }

    open spec fn exit_spec(self, req: Req::V, res: Res::V, ex: Seq<Event>) -> Visit<
        Self,
        Req::V,
        Res::V,
        Seq<Event>,
    > {
        Visit { mw: self, req, res, ex: ex.push(event_of(self, Phase::Exit)), status: self.on_exit }
    }

    fn enter(&mut self, _req: &mut Req, _res: &mut Res, ex: &mut Vec<Event>) -> (r: Status) {
        ex.push(Event { id: self.id, phase: Phase::Enter });
        self.on_enter
    }

    fn exit(&mut self, _req: &mut Req, _res: &mut Res, ex: &mut Vec<Event>) -> (r: Status) {
        ex.push(Event { id: self.id, phase: Phase::Exit });
        self.on_exit
    }
}

} // verus!
