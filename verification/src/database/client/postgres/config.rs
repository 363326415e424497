//! What is needed to open a session.

use vstd::prelude::*;

verus! {

/// The identity that a session is opened with.
#[derive(Debug, Clone, Copy, PartialEq, Eq)]
pub struct Config<'data> {
    /// The name that the session shows up with in the statistics of the server. May be empty.
    pub app_name: &'data [u8],
    /// The database to connect to.
    pub db: &'data [u8],
    /// The password of the user.
    pub password: &'data [u8],
    /// The user to connect as.
    pub user: &'data [u8],
}

impl<'data> Config<'data> {
    /// A configuration without an application name.
    pub fn from_user_password_db(user: &'data [u8], password: &'data [u8], db: &'data [u8]) -> (r:
        Self)
        ensures
            r.user == user,
            r.password == password,
            r.db == db,
            r.app_name@ == Seq::<u8>::empty(),
    {
        let empty: &'static [u8] = &[];
        Self { app_name: empty, db, password, user }
    }
}

} // verus!
