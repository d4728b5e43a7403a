use vstd::prelude::*;
use crate::error::DbError;

verus! {

/// What happened while trying to establish a connection: the connection
/// string was absent from the environment, it did not parse, the liveness
/// check against the server failed (with the underlying cause), or the
/// liveness check succeeded and produced a usable handle.
pub enum InitEvent<H> {
    UriMissing,
    UriInvalid(String),
    PingFailed(String),
    PingOk(H),
}

/// The result of one liveness probe against the server.
pub enum PingOutcome {
    Reachable,
    Unreachable(String),
}

/// Owns the single process-wide handle to the database client. At most one
/// initialization may succeed over the whole life of the manager; a failed
/// attempt stores nothing and leaves the manager eligible for a later
/// successful attempt.
pub struct ConnectionManager<H> {
    handle: Option<H>,
}

/// Whether one initialization attempt succeeds: only from an uninitialized
/// manager, and only when the liveness check came back positive.
pub open spec fn init_succeeds<H>(ready: bool, ev: InitEvent<H>) -> bool {
    !ready && ev is PingOk
}

/// Whether the manager is initialized after one attempt: once ready it stays
/// ready, and a positive liveness check makes it ready.
pub open spec fn ready_after<H>(ready: bool, ev: InitEvent<H>) -> bool {
    ready || ev is PingOk
}

/// How many attempts in a row of events succeed, each applied to the state
/// the previous one left behind.
pub open spec fn count_successes<H>(ready: bool, evs: Seq<InitEvent<H>>) -> nat
    decreases evs.len(),
{
    if evs.len() == 0 {
        0
    } else {
        (if init_succeeds(ready, evs[0]) {
            1nat
        } else {
            0nat
        }) + count_successes(ready_after(ready, evs[0]), evs.drop_first())
    }
}

/// From a ready manager no attempt ever succeeds again.
proof fn lemma_no_success_when_ready<H>(evs: Seq<InitEvent<H>>)
    ensures
        count_successes(true, evs) == 0,
    decreases evs.len(),
{
    if evs.len() > 0 {
        lemma_no_success_when_ready::<H>(evs.drop_first());
    }
}

/// At most one initialization ever succeeds: over any row of attempts made
/// against a fresh manager, the number of successful ones is zero or one.
pub proof fn lemma_init_succeeds_at_most_once<H>(evs: Seq<InitEvent<H>>)
    ensures
        count_successes(false, evs) <= 1,
    decreases evs.len(),
{
    if evs.len() > 0 {
        if evs[0] is PingOk {
            lemma_no_success_when_ready::<H>(evs.drop_first());
        } else {
            lemma_init_succeeds_at_most_once::<H>(evs.drop_first());
        }
    }
}

impl<H> ConnectionManager<H> {
    /// Whether a handle is stored.
    pub closed spec fn is_ready(&self) -> bool {
        self.handle is Some
    }

    /// The stored handle, if any.
    pub closed spec fn spec_handle(&self) -> Option<H> {
        self.handle
    }

    /// A fresh, uninitialized manager.
    pub fn new() -> (m: ConnectionManager<H>)
        ensures
            !m.is_ready(),
    {
        ConnectionManager { handle: None }
    }

    /// Accepts or rejects one attempt to establish the connection. Succeeds
    /// exactly when no earlier attempt has succeeded and the liveness check
    /// came back positive, and then stores the handle; any failed attempt
    /// stores nothing, reports which configuration, connectivity or lifecycle
    /// error occurred, and leaves the manager as it was.
    pub fn init_client(&mut self, ev: InitEvent<H>) -> (r: Result<(), DbError>)
        ensures
            r is Ok <==> init_succeeds(old(self).is_ready(), ev),
            final(self).is_ready() == ready_after(old(self).is_ready(), ev),
            old(self).is_ready() ==> r == Err::<(), DbError>(DbError::AlreadyInitialized)
                && final(self).spec_handle() == old(self).spec_handle(),
            !old(self).is_ready() ==> match ev {
                InitEvent::UriMissing => r == Err::<(), DbError>(DbError::ConfigMissing),
                InitEvent::UriInvalid(m) => r == Err::<(), DbError>(DbError::ConfigInvalid(m)),
                InitEvent::PingFailed(m) => r == Err::<(), DbError>(DbError::Connectivity(m)),
                InitEvent::PingOk(h) => r is Ok && final(self).spec_handle() == Some(h),
            },
            !init_succeeds(old(self).is_ready(), ev) ==> final(self).spec_handle() == old(
                self,
            ).spec_handle(),
    {
        if self.handle.is_some() {
            return Err(DbError::AlreadyInitialized);
        }
        match ev {
            InitEvent::UriMissing => Err(DbError::ConfigMissing),
            InitEvent::UriInvalid(m) => Err(DbError::ConfigInvalid(m)),
            InitEvent::PingFailed(m) => Err(DbError::Connectivity(m)),
            InitEvent::PingOk(h) => {
                self.handle = Some(h);
                Ok(())
            },
        }
    }

    /// The stored handle. Calling this before a successful `init_client` is
    /// a lifecycle error, which callers are expected to treat as fatal.
    pub fn get_handle(&self) -> (r: Result<&H, DbError>)
        ensures
            match r {
                Ok(h) => self.is_ready() && self.spec_handle() == Some(*h),
                Err(e) => !self.is_ready() && e == DbError::NotInitialized,
            },
    {
        match &self.handle {
            Some(h) => Ok(h),
            None => Err(DbError::NotInitialized),
        }
    }

    /// Turns a liveness probe into a plain boolean: true exactly when the
    /// server answered, and an error is never passed on, whatever the
    /// underlying failure was.
    pub fn is_mongod_service_running(&self, ping: PingOutcome) -> (alive: bool)
        requires
            self.is_ready(),
        ensures
            alive == (ping is Reachable),
    {
        match ping {
            PingOutcome::Reachable => true,
            PingOutcome::Unreachable(_) => false,
        }
    }
}

} // verus!
