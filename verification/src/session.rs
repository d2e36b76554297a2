//! A session of the engine, known by its handle.

use vstd::prelude::*;

verus! {

/// A session: the handle under which the caller keeps the engine's
/// session. A session and the cursors opened in it belong to one thread.
#[derive(Clone, Debug)]
pub struct InternalSession {
    pub session: u64,
}

impl InternalSession {
    /// The session with the given handle.
    pub fn new(session: u64) -> (s: Self)
        ensures
            s.session == session,
    {
        InternalSession { session }
    }

    /// The handle of the session.
    pub fn get_session_ptr(&self) -> (session: u64)
        ensures
            session == self.session,
    {
        self.session
    }
}

} // verus!
