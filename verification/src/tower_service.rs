//! A service that answers every request with a marked copy of it.

use crate::frame::append_bytes;
use crate::service::{Readiness, Service, ServiceError};
use vstd::prelude::*;

verus! {

/// The bytes of `Echo: `, which `TimeService` puts before every request.
pub open spec fn echo_prefix() -> Seq<u8> {
    seq![0x45u8, 0x63u8, 0x68u8, 0x6fu8, 0x3au8, 0x20u8]
}

/// A service that answers a request with `Echo: ` followed by the request.
#[derive(Clone)]
pub struct TimeService;

impl Service for TimeService {
    /// Always ready.
    fn poll_ready(&mut self) -> (r: Readiness)
        ensures
            r is Ready,
    {
        Readiness::Ready
    }

    /// Gives `Echo: ` followed by the request.
    fn call(&mut self, req: Vec<u8>) -> (r: Result<Vec<u8>, ServiceError>)
        ensures
            r is Ok,
            r->Ok_0@ == echo_prefix() + req@,
    {
        let mut res: Vec<u8> = Vec::new();
        res.push(0x45u8);
        res.push(0x63u8);
        res.push(0x68u8);
        res.push(0x6fu8);
        res.push(0x3au8);
        res.push(0x20u8);
        assert(res@ =~= echo_prefix());
        append_bytes(&mut res, req.as_slice());
        Ok(res)
    }
}

} // verus!
