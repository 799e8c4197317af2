//! The contract between the engine and the application: ask whether the
//! service is ready, then hand it one request.

use vstd::prelude::*;

verus! {

/// The failure of a service, in the application's own words.
#[derive(Debug, Clone, PartialEq, Eq)]
pub struct ServiceError {
    pub message: String,
}

/// What a readiness check reports.
#[derive(Debug, Clone, PartialEq, Eq)]
pub enum Readiness {
    /// The service takes one more request.
    Ready,
    /// The service is saturated: no request may be handed to it for now.
    NotReady,
    /// The service has failed and takes no request.
    Failed(ServiceError),
}

/// A handler of requests with admission control: a readiness check, and
/// the processing of one request. A service may report `NotReady` to hold
/// requests back; what it answers is its own affair.
pub trait Service {
    /// Reports whether the service takes one more request.
    fn poll_ready(&mut self) -> Readiness;

    /// Processes one request: gives the response payload, or an error where
    /// the service has no valid response.
    fn call(&mut self, req: Vec<u8>) -> Result<Vec<u8>, ServiceError>;
}

/// How many of `reports` are `Ready`.
pub open spec fn ready_reports(reports: Seq<Readiness>) -> nat
    decreases reports.len(),
{
    if reports.len() == 0 {
        0
    } else {
        ready_reports(reports.drop_last()) + if reports.last() is Ready {
            1nat
        } else {
            0nat
        }
    }
}

/// A service behind its admission control. Requests reach the service only
/// through `call`, and `call` may be used only after a readiness check that
/// reported `Ready`; each such report admits one request.
pub struct Admission<S> {
    service: S,
    admitted: bool,
    reported: Ghost<Seq<Readiness>>,
    handed: Ghost<Seq<Seq<u8>>>,
}

impl<S: Service> Admission<S> {
    /// The service behind the admission control.
    pub closed spec fn service(&self) -> S {
        self.service
    }

    /// Whether the next request is admitted: the last readiness check
    /// reported `Ready` and no request was handed over since.
    pub closed spec fn admitted(&self) -> bool {
        self.admitted
    }

    /// What the service reported at each readiness check so far, first to
    /// last.
    pub closed spec fn reported(&self) -> Seq<Readiness> {
        self.reported@
    }

    /// The payloads of the requests handed to the service so far, first to
    /// last.
    pub closed spec fn handed(&self) -> Seq<Seq<u8>> {
        self.handed@
    }

    /// What holds between calls: every request handed over, and the one that
    /// is admitted now, has a `Ready` report of its own.
    pub closed spec fn wf(&self) -> bool {
        self.handed@.len() + (if self.admitted {
            1nat
        } else {
            0nat
        }) <= ready_reports(self.reported@)
    }

    /// Backpressure is respected: the service was never handed more requests
    /// than it had reported `Ready` for.
    pub proof fn lemma_backpressure(&self)
        requires
            self.wf(),
        ensures
            self.handed().len() <= ready_reports(self.reported()),
            self.admitted() ==> self.handed().len() < ready_reports(self.reported()),
    {
    }

    /// Puts a service behind admission control. Nothing is admitted before
    /// the first readiness check.
    pub fn new(service: S) -> (gate: Admission<S>)
        ensures
            gate.wf(),
            gate.service() == service,
            !gate.admitted(),
            gate.reported() == Seq::<Readiness>::empty(),
            gate.handed() == Seq::<Seq<u8>>::empty(),
    {
        Admission {
            service,
            admitted: false,
            reported: Ghost(Seq::empty()),
            handed: Ghost(Seq::empty()),
        }
    }

    /// Whether the next request is admitted.
    pub fn is_admitted(&self) -> (b: bool)
        ensures
            b == self.admitted(),
    {
        self.admitted
    }

    /// Asks the service whether it takes one more request. Only the report
    /// `Ready` admits the next request. No request is handed over.
    pub fn poll_ready(&mut self) -> (r: Readiness)
        requires
            old(self).wf(),
        ensures
            final(self).wf(),
            final(self).admitted() <==> r is Ready,
            final(self).reported() == old(self).reported().push(r),
            final(self).handed() == old(self).handed(),
    {
        let r = self.service.poll_ready();
        self.admitted = match &r {
            Readiness::Ready => true,
            _ => false,
        };
        proof {
            self.reported@ = self.reported@.push(r);
            assert(self.reported@.drop_last() =~= old(self).reported@);
        }
        r
    }

    /// Hands one admitted request to the service and gives what the service
    /// answered. The admission is used up by it.
    pub fn call(&mut self, req: Vec<u8>) -> (r: Result<Vec<u8>, ServiceError>)
        requires
            old(self).wf(),
            old(self).admitted(),
        ensures
            final(self).wf(),
            !final(self).admitted(),
            final(self).reported() == old(self).reported(),
            final(self).handed() == old(self).handed().push(req@),
    {
        self.admitted = false;
        proof {
            self.handed@ = self.handed@.push(req@);
        }
        self.service.call(req)
    }

    /// Takes the service out of its admission control.
    pub fn into_inner(self) -> (service: S)
        ensures
            service == self.service(),
    {
        self.service
    }
}

/// A service that echoes: every request is answered with its own payload.
#[derive(Debug, Clone)]
pub struct TowerService;

impl Service for TowerService {
    /// Always ready.
    fn poll_ready(&mut self) -> (r: Readiness)
        ensures
            r is Ready,
    {
        Readiness::Ready
    }

    /// Gives the request back as the response.
    fn call(&mut self, req: Vec<u8>) -> (r: Result<Vec<u8>, ServiceError>)
        ensures
            r is Ok,
            r->Ok_0@ == req@,
    {
        Ok(req)
    }
}

} // verus!
