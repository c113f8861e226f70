use vstd::prelude::*;
use pingora_limits::inflight::Guard;

verus! {

#[verifier::external_type_specification]
#[verifier::external_body]
pub struct ExGuard(Guard);

/// Per-request state, owned by the request while it runs and dropped after
/// its logging. A held inflight guard gives its count back when dropped.
pub struct State {
    pub location_index: Option<usize>,
    pub client_ip: Option<String>,
    pub upstream_address: String,
    pub reused: bool,
    pub status: Option<u16>,
    pub response_body_size: usize,
    pub processing: i32,
    pub guard: Option<Guard>,
}

impl State {
    pub fn new() -> (r: State)
        ensures
            r.location_index is None,
            r.client_ip is None,
            r.upstream_address@.len() == 0,
            !r.reused,
            r.status is None,
            r.response_body_size == 0,
            r.processing == 0,
            r.guard is None,
    {
        State {
            location_index: None,
            client_ip: None,
            upstream_address: String::new(),
            reused: false,
            status: None,
            response_body_size: 0,
            processing: 0,
            guard: None,
        }
    }
}

impl Default for State {
    fn default() -> (r: State) {
        State::new()
    }
}

} // verus!
