//! The request service that shares the process with the dispatcher: where
//! it listens and what it answers. It answers without regard to the jobs,
//! and the jobs run without regard to it.

use vstd::prelude::*;

verus! {

/// The address that the service binds: the loopback interface.
pub const LISTEN_HOST: [u8; 4] = [127, 0, 0, 1];

/// The TCP port that the service binds.
pub const LISTEN_PORT: u16 = 3000;

/// Status code of every reply.
pub const STATUS_OK: u16 = 200;

/// Body of every reply.
pub const GREETING: &'static str = "Hello World!";

/// An HTTP reply, as far as the service decides it.
#[derive(Debug, Clone, Copy, PartialEq, Eq)]
pub struct Reply {
    pub status: u16,
    pub body: &'static str,
}

/// Answers a request: whatever the method and the path, with success and
/// the greeting.
pub fn respond(method: &str, path: &str) -> (reply: Reply)
    ensures
        reply.status == STATUS_OK,
        reply.body@ == GREETING@,
{
    Reply { status: STATUS_OK, body: GREETING }
}

} // verus!
