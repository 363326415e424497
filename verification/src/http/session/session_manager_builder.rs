//! Setting up a session manager.

use crate::error::Error;
use crate::http::cookie::{CookieGeneric, SameSite, Timestamp};
use crate::misc::rng::Rng;
use core::time::Duration;
use vstd::prelude::*;

verus! {

/// The secret that sessions are told apart with: 32 bytes of high-entropy randomness.
pub type SessionKey = [u8; 32];

/// The time that `secs` whole seconds take.
pub uninterp spec fn duration_from_secs(secs: u64) -> Duration;

/// `Duration::from_secs` of the standard library: the time that `secs` whole seconds take.
pub assume_specification[ Duration::from_secs ](secs: u64) -> (r: Duration)
    ensures
        r == duration_from_secs(secs),
;

/// The number of seconds between two sweeps unless something else is asked for: half an hour.
pub const DEFAULT_INSPECTION_INTERVAL_SECS: u64 = 1800;

/// Default and optional parameters for the construction of a session manager.
#[derive(Debug)]
pub struct SessionManagerBuilder {
    /// The cookie that every session is handed out with, without its value.
    pub cookie_def: CookieGeneric<&'static [u8], Vec<u8>>,
    /// The time between two sweeps of expired sessions.
    pub inspection_interval: Duration,
}

/// What a session manager guards.
#[derive(Debug)]
pub struct SessionManagerInner {
    /// The cookie that every session is handed out with, without its value.
    pub cookie_def: CookieGeneric<&'static [u8], Vec<u8>>,
    /// The secret that sessions are told apart with.
    pub key: SessionKey,
}

/// Hands out and checks the cookies of sessions.
#[derive(Debug)]
pub struct SessionManager {
    /// What is guarded. Where several tasks share the manager this is what goes behind their
    /// lock.
    pub inner: SessionManagerInner,
}

/// What the task that sweeps expired sessions does next.
#[derive(Debug, Clone, Copy, PartialEq, Eq)]
pub enum SweepAction {
    /// The store is asked to delete what has expired.
    DeleteExpired,
    /// Nothing happens for the given time.
    Sleep(Duration),
    /// The task ends with the failure that stopped it.
    Stop(Error),
}

/// The task that sweeps expired sessions, as a list of things to do: what to do first and what
/// to do once something was done. Whoever runs it does the deleting and the sleeping.
#[derive(Debug, Clone, Copy, PartialEq, Eq)]
pub struct SessionSweep {
    /// The time between two sweeps.
    pub inspection_interval: Duration,
}

impl SessionSweep {
    /// What is done first: expired sessions are deleted.
    pub fn start(&self) -> (r: SweepAction)
        ensures
            r == SweepAction::DeleteExpired,
    {
        SweepAction::DeleteExpired
    }

    /// What follows `done` when it ended with `failure`: sleeping follows deleting, deleting
    /// follows sleeping, and a failure stops everything.
    pub open spec fn spec_next(&self, done: SweepAction, failure: Option<Error>) -> SweepAction {
        match failure {
            Some(e) => SweepAction::Stop(e),
            None => match done {
                SweepAction::DeleteExpired => SweepAction::Sleep(self.inspection_interval),
                SweepAction::Sleep(_) => SweepAction::DeleteExpired,
                SweepAction::Stop(e) => SweepAction::Stop(e),
            },
        }
    }

    /// What is done after `done` ended with `failure`, or without one.
    pub fn next(&self, done: SweepAction, failure: Option<Error>) -> (r: SweepAction)
        ensures
            r == self.spec_next(done, failure),
    {
        match failure {
            Some(e) => SweepAction::Stop(e),
            None => match done {
                SweepAction::DeleteExpired => SweepAction::Sleep(self.inspection_interval),
                SweepAction::Sleep(_) => SweepAction::DeleteExpired,
                SweepAction::Stop(e) => SweepAction::Stop(e),
            },
        }
    }
}

impl SessionManagerBuilder {
    /// The cookie is called `id`, is sent for every path of any host, only over `https`, only
    /// to requests of the same site and out of the reach of scripts, and never expires. Expired
    /// sessions are swept every half an hour.
    pub fn new() -> (r: Self)
        ensures
            r.cookie_def.domain@ == Seq::<u8>::empty(),
            r.cookie_def.expire is None,
            r.cookie_def.http_only,
            r.cookie_def.max_age is None,
            r.cookie_def.name@ == seq![0x69u8, 0x64u8],
            r.cookie_def.path@ == seq![0x2fu8],
            r.cookie_def.same_site == Some(SameSite::Strict),
            r.cookie_def.secure,
            r.cookie_def.value@ == Seq::<u8>::empty(),
            r.inspection_interval == duration_from_secs(DEFAULT_INSPECTION_INTERVAL_SECS),
    {
        let domain: &'static [u8] = &[];
        let name: &'static [u8] = &[0x69, 0x64];
        let path: &'static [u8] = &[0x2f];
        assert(name@ =~= seq![0x69u8, 0x64u8]);
        assert(path@ =~= seq![0x2fu8]);
        Self {
            cookie_def: CookieGeneric {
                domain,
                expire: None,
                http_only: true,
                max_age: None,
                name,
                path,
                same_site: Some(SameSite::Strict),
                secure: true,
                value: Vec::new(),
            },
            inspection_interval: Duration::from_secs(DEFAULT_INSPECTION_INTERVAL_SECS),
        }
    }

    /// Creates a new session manager with a random generated key. It is up to the caller to
    /// provide a good RNG.
    ///
    /// The returned [`SessionSweep`] tells how expired sessions are deleted at an interval
    /// defined by [`Self::inspection_interval`] and should be run in a separated task. If the
    /// backing store already has a system that automatically removes outdated sessions, it
    /// can be ignored.
    pub fn build_generating_key<RNG>(self, rng: &mut RNG) -> (r: (SessionSweep, SessionManager)) where
        RNG: Rng,

        ensures
            r.0.inspection_interval == self.inspection_interval,
            r.1.inner.cookie_def == self.cookie_def,
    {
        let mut key: SessionKey = [0u8;32];
        rng.fill_slice(&mut key);
        Self::build_with_key(self, key)
    }

    /// Creates a new session manager with the provided `key`.
    ///
    /// The returned [`SessionSweep`] tells how expired sessions are deleted at an interval
    /// defined by [`Self::inspection_interval`] and should be run in a separated task. If the
    /// backing store already has a system that automatically removes outdated sessions, it
    /// can be ignored.
    pub fn build_with_key(self, key: SessionKey) -> (r: (SessionSweep, SessionManager))
        ensures
            r.0.inspection_interval == self.inspection_interval,
            r.1.inner.cookie_def == self.cookie_def,
            r.1.inner.key == key,
    {
        let Self { cookie_def, inspection_interval } = self;
        (
            SessionSweep { inspection_interval },
            SessionManager { inner: SessionManagerInner { cookie_def, key } },
        )
    }

    /// Defines the host to which the cookie will be sent.
    pub fn domain(self, elem: &'static [u8]) -> (r: Self)
        ensures
            r.cookie_def == (CookieGeneric { domain: elem, ..self.cookie_def }),
            r.inspection_interval == self.inspection_interval,
    {
        let mut this = self;
        this.cookie_def.domain = elem;
        this
    }

    /// Indicates the maximum lifetime of the cookie as a moment in time.
    pub fn expires(self, elem: Option<Timestamp>) -> (r: Self)
        ensures
            r.cookie_def == (CookieGeneric { expire: elem, ..self.cookie_def }),
            r.inspection_interval == self.inspection_interval,
    {
        let mut this = self;
        this.cookie_def.expire = elem;
        this
    }

    /// Forbids JavaScript from accessing the cookie.
    pub fn http_only(self, elem: bool) -> (r: Self)
        ensures
            r.cookie_def == (CookieGeneric { http_only: elem, ..self.cookie_def }),
            r.inspection_interval == self.inspection_interval,
    {
        let mut this = self;
        this.cookie_def.http_only = elem;
        this
    }

    /// The amount of time that the task that sweeps expired sessions waits between two
    /// sweeps.
    pub fn inspection_interval(self, elem: Duration) -> (r: Self)
        ensures
            r.cookie_def == self.cookie_def,
            r.inspection_interval == elem,
    {
        let mut this = self;
        this.inspection_interval = elem;
        this
    }

    /// Cookie name.
    pub fn name(self, elem: &'static [u8]) -> (r: Self)
        ensures
            r.cookie_def == (CookieGeneric { name: elem, ..self.cookie_def }),
            r.inspection_interval == self.inspection_interval,
    {
        let mut this = self;
        this.cookie_def.name = elem;
        this
    }

    /// Indicates the time until the cookie expires.
    pub fn max_age(self, elem: Option<Duration>) -> (r: Self)
        ensures
            r.cookie_def == (CookieGeneric { max_age: elem, ..self.cookie_def }),
            r.inspection_interval == self.inspection_interval,
    {
        let mut this = self;
        this.cookie_def.max_age = elem;
        this
    }

    /// Indicates the path that must exist in the requested URL for the browser to send the
    /// cookie.
    pub fn path(self, elem: &'static [u8]) -> (r: Self)
        ensures
            r.cookie_def == (CookieGeneric { path: elem, ..self.cookie_def }),
            r.inspection_interval == self.inspection_interval,
    {
        let mut this = self;
        this.cookie_def.path = elem;
        this
    }

    /// Controls whether or not a cookie is sent with cross-site requests.
    pub fn same_site(self, elem: Option<SameSite>) -> (r: Self)
        ensures
            r.cookie_def == (CookieGeneric { same_site: elem, ..self.cookie_def }),
            r.inspection_interval == self.inspection_interval,
    {
        let mut this = self;
        this.cookie_def.same_site = elem;
        this
    }

    /// Indicates that the cookie is sent to the server only when a request is made with the
    /// `https` scheme.
    pub fn secure(self, elem: bool) -> (r: Self)
        ensures
            r.cookie_def == (CookieGeneric { secure: elem, ..self.cookie_def }),
            r.inspection_interval == self.inspection_interval,
    {
        let mut this = self;
        this.cookie_def.secure = elem;
        this
    }
}

} // verus!
