//! What the executor decides when a message arrives.

use crate::database::client::postgres::authentication::{Authentication, AuthenticationView};
use crate::database::client::postgres::message::{Message, MessageTy};
use crate::database::client::postgres::sasl::{choose_binding, spec_choose_binding, ChannelBinding};
use crate::error::Error;
use vstd::prelude::*;

verus! {

/// The failure that an error response of the backend turns into.
pub open spec fn database_error(is_fatal: bool, code: [u8; 5]) -> Error {
    Error::DatabaseError { is_fatal, code }
}

/// The failure that is reported in the end once `failure` was reported by the backend while
/// `held` was held back already: the first one stays.
pub open spec fn first_failure(held: Option<Error>, failure: Error) -> Option<Error> {
    match held {
        Some(_) => held,
        None => Some(failure),
    }
}

/// What is to be done with a message that arrived while a bound statement runs.
#[derive(Debug, Clone, Copy, PartialEq, Eq)]
pub enum FetchAction {
    /// Nothing; the next message is waited for.
    Skip,
    /// The message in scope is a row with the given number of columns.
    Row(u16),
    /// The command is over: the number of rows that it touched, or why it failed.
    Finish(Result<u64, Error>),
}

/// What is known about a bound statement that runs.
#[derive(Debug, Clone, Copy, PartialEq, Eq)]
pub struct FetchState {
    /// If the backend confirmed that the parameters were bound.
    pub is_bound: bool,
    /// The number of rows that the last command that ended touched.
    pub rows: u64,
    /// The failure that the backend reported, held back until it waits for the next command.
    pub failure: Option<Error>,
}

impl FetchState {
    /// The state in which `Bind`, `Execute` and `Sync` were sent and nothing came back yet.
    pub fn new() -> (r: Self)
        ensures
            r == (FetchState { is_bound: false, rows: 0, failure: None }),
    {
        FetchState { is_bound: false, rows: 0, failure: None }
    }

    /// The state after `msg` arrived and what is to be done with it.
    ///
    /// A fatal failure ends everything at once. Any other failure is held back while the
    /// messages up to `ReadyForQuery` are passed over, so that the connection stays usable.
    /// Rows count only once the binding was confirmed and as long as nothing failed. The row
    /// count of the last command that ended is what is reported. A message that has no place
    /// here ends everything with its tag. Warnings are passed over.
    pub open spec fn spec_on_message(self, msg: Message) -> (FetchState, FetchAction) {
        match msg.ty {
            MessageTy::ErrorResponse { is_fatal, code } => if is_fatal {
                (self, FetchAction::Finish(Err(database_error(true, code))))
            } else {
                (
                    FetchState {
                        failure: first_failure(self.failure, database_error(false, code)),
                        ..self
                    },
                    FetchAction::Skip,
                )
            },
            MessageTy::ReadyForQuery => (
                self,
                FetchAction::Finish(
                    match self.failure {
                        Some(e) => Err(e),
                        None => Ok(self.rows),
                    },
                ),
            ),
            MessageTy::NoticeResponse => (self, FetchAction::Skip),
            MessageTy::BindComplete => if self.is_bound {
                (self, FetchAction::Finish(Err(Error::UnexpectedDatabaseMessage { received: msg.tag })))
            } else {
                (FetchState { is_bound: true, ..self }, FetchAction::Skip)
            },
            MessageTy::DataRow(len) => if !self.is_bound {
                (self, FetchAction::Finish(Err(Error::UnexpectedDatabaseMessage { received: msg.tag })))
            } else if self.failure is Some {
                (self, FetchAction::Skip)
            } else {
                (self, FetchAction::Row(len))
            },
            MessageTy::CommandComplete(rows) => if self.is_bound {
                (FetchState { rows, ..self }, FetchAction::Skip)
            } else {
                (self, FetchAction::Finish(Err(Error::UnexpectedDatabaseMessage { received: msg.tag })))
            },
            MessageTy::EmptyQueryResponse => if self.is_bound {
                (self, FetchAction::Skip)
            } else {
                (self, FetchAction::Finish(Err(Error::UnexpectedDatabaseMessage { received: msg.tag })))
            },
            _ => (self, FetchAction::Finish(Err(Error::UnexpectedDatabaseMessage { received: msg.tag }))),
        }
    }

    /// Decides what is to be done with `msg`.
    pub fn on_message(self, msg: Message) -> (r: (FetchState, FetchAction))
        ensures
            r == self.spec_on_message(msg),
    {
        let unexpected = FetchAction::Finish(
            Err(Error::UnexpectedDatabaseMessage { received: msg.tag }),
        );
        match msg.ty {
            MessageTy::ErrorResponse { is_fatal, code } => {
                let failure = Error::DatabaseError { is_fatal, code };
                if is_fatal {
                    (self, FetchAction::Finish(Err(failure)))
                } else {
                    let held = match self.failure {
                        Some(first) => Some(first),
                        None => Some(failure),
                    };
                    (
                        FetchState { is_bound: self.is_bound, rows: self.rows, failure: held },
                        FetchAction::Skip,
                    )
                }
            },
            MessageTy::ReadyForQuery => (self, FetchAction::Finish(match self.failure {
                Some(e) => Err(e),
                None => Ok(self.rows),
            })),
            MessageTy::NoticeResponse => (self, FetchAction::Skip),
            MessageTy::BindComplete => {
                if self.is_bound {
                    (self, unexpected)
                } else {
                    (
                        FetchState { is_bound: true, rows: self.rows, failure: self.failure },
                        FetchAction::Skip,
                    )
                }
            },
            MessageTy::DataRow(len) => {
                if !self.is_bound {
                    (self, unexpected)
                } else if self.failure.is_some() {
                    (self, FetchAction::Skip)
                } else {
                    (self, FetchAction::Row(len))
                }
            },
            MessageTy::CommandComplete(rows) => {
                if self.is_bound {
                    (
                        FetchState { is_bound: true, rows, failure: self.failure },
                        FetchAction::Skip,
                    )
                } else {
                    (self, unexpected)
                }
            },
            MessageTy::EmptyQueryResponse => {
                if self.is_bound {
                    (self, FetchAction::Skip)
                } else {
                    (self, unexpected)
                }
            },
            _ => (self, unexpected),
        }
    }
}

/// What is to be done with a message that arrived while a statement is being prepared.
#[derive(Debug, Clone, Copy, PartialEq, Eq)]
pub enum PrepareAction {
    /// Nothing; the next message is waited for.
    Skip,
    /// The message in scope describes the given number of parameters.
    Params(u16),
    /// The message in scope describes the given number of columns.
    Columns(u16),
    /// The preparation is over, with the failure that ended it if there is one.
    Finish(Option<Error>),
}

/// What is known about a statement that is being prepared.
#[derive(Debug, Clone, Copy, PartialEq, Eq)]
pub struct PrepareState {
    /// If the backend confirmed that the statement was parsed.
    pub is_parsed: bool,
    /// If the backend told what the statement yields, be it nothing.
    pub is_described: bool,
    /// The failure that the backend reported, held back until it waits for the next command.
    pub failure: Option<Error>,
}

impl PrepareState {
    /// The state in which `Parse`, `Describe` and `Sync` were sent and nothing came back yet.
    pub fn new() -> (r: Self)
        ensures
            r == (PrepareState { is_parsed: false, is_described: false, failure: None }),
    {
        PrepareState { is_parsed: false, is_described: false, failure: None }
    }

    /// The state after `msg` arrived and what is to be done with it.
    ///
    /// Descriptions count only once the parsing was confirmed. The preparation succeeds only
    /// if, by the time the backend waits for the next command, the parsing was confirmed, the
    /// result was described and nothing failed.
    pub open spec fn spec_on_message(self, msg: Message) -> (PrepareState, PrepareAction) {
        let unexpected = PrepareAction::Finish(
            Some(Error::UnexpectedDatabaseMessage { received: msg.tag }),
        );
        match msg.ty {
            MessageTy::ErrorResponse { is_fatal, code } => if is_fatal {
                (self, PrepareAction::Finish(Some(database_error(true, code))))
            } else {
                (
                    PrepareState {
                        failure: first_failure(self.failure, database_error(false, code)),
                        ..self
                    },
                    PrepareAction::Skip,
                )
            },
            MessageTy::ReadyForQuery => (
                self,
                match self.failure {
                    Some(e) => PrepareAction::Finish(Some(e)),
                    None => if self.is_parsed && self.is_described {
                        PrepareAction::Finish(None)
                    } else {
                        unexpected
                    },
                },
            ),
            MessageTy::NoticeResponse => (self, PrepareAction::Skip),
            MessageTy::ParameterStatus => (self, PrepareAction::Skip),
            MessageTy::NotificationResponse => (self, PrepareAction::Skip),
            MessageTy::ParseComplete => if self.is_parsed {
                (self, unexpected)
            } else {
                (PrepareState { is_parsed: true, ..self }, PrepareAction::Skip)
            },
            MessageTy::ParameterDescription(len) => if self.is_parsed {
                (self, PrepareAction::Params(len))
            } else {
                (self, unexpected)
            },
            MessageTy::RowDescription(len) => if self.is_parsed {
                (PrepareState { is_described: true, ..self }, PrepareAction::Columns(len))
            } else {
                (self, unexpected)
            },
            MessageTy::NoData => if self.is_parsed {
                (PrepareState { is_described: true, ..self }, PrepareAction::Skip)
            } else {
                (self, unexpected)
            },
            _ => (self, unexpected),
        }
    }

    /// Decides what is to be done with `msg`.
    pub fn on_message(self, msg: Message) -> (r: (PrepareState, PrepareAction))
        ensures
            r == self.spec_on_message(msg),
    {
        let unexpected = PrepareAction::Finish(
            Some(Error::UnexpectedDatabaseMessage { received: msg.tag }),
        );
        match msg.ty {
            MessageTy::ErrorResponse { is_fatal, code } => {
                let failure = Error::DatabaseError { is_fatal, code };
                if is_fatal {
                    (self, PrepareAction::Finish(Some(failure)))
                } else {
                    let held = match self.failure {
                        Some(first) => Some(first),
                        None => Some(failure),
                    };
                    (
                        PrepareState {
                            is_parsed: self.is_parsed,
                            is_described: self.is_described,
                            failure: held,
                        },
                        PrepareAction::Skip,
                    )
                }
            },
            MessageTy::ReadyForQuery => {
                match self.failure {
                    Some(e) => (self, PrepareAction::Finish(Some(e))),
                    None => {
                        if self.is_parsed && self.is_described {
                            (self, PrepareAction::Finish(None))
                        } else {
                            (self, unexpected)
                        }
                    },
                }
            },
            MessageTy::NoticeResponse => (self, PrepareAction::Skip),
            MessageTy::ParameterStatus => (self, PrepareAction::Skip),
            MessageTy::NotificationResponse => (self, PrepareAction::Skip),
            MessageTy::ParseComplete => {
                if self.is_parsed {
                    (self, unexpected)
                } else {
                    (
                        PrepareState {
                            is_parsed: true,
                            is_described: self.is_described,
                            failure: self.failure,
                        },
                        PrepareAction::Skip,
                    )
                }
            },
            MessageTy::ParameterDescription(len) => {
                if self.is_parsed {
                    (self, PrepareAction::Params(len))
                } else {
                    (self, unexpected)
                }
            },
            MessageTy::RowDescription(len) => {
                if self.is_parsed {
                    (
                        PrepareState { is_parsed: true, is_described: true, failure: self.failure },
                        PrepareAction::Columns(len),
                    )
                } else {
                    (self, unexpected)
                }
            },
            MessageTy::NoData => {
                if self.is_parsed {
                    (
                        PrepareState { is_parsed: true, is_described: true, failure: self.failure },
                        PrepareAction::Skip,
                    )
                } else {
                    (self, unexpected)
                }
            },
            _ => (self, unexpected),
        }
    }
}

/// Whatever the messages, a preparation that ends well has seen the parsing confirmed and the
/// result described: no statement is taken for prepared on less.
pub proof fn lemma_prepared_was_parsed(state: PrepareState, msg: Message)
    requires
        state.spec_on_message(msg).1 == PrepareAction::Finish(None),
    ensures
        state.is_parsed,
        state.is_described,
        state.failure is None,
        msg.ty is ReadyForQuery,
{
}

/// What is to be done with a message that arrived while a simple query runs, or a `Close`.
#[derive(Debug, Clone, Copy, PartialEq, Eq)]
pub enum SimpleAction {
    /// Nothing; the next message is waited for.
    Skip,
    /// One command of the query ended; the number of rows that it touched.
    Rows(u64),
    /// The query is over, with the failure that ended it if there is one.
    Finish(Option<Error>),
}

/// The failure that a simple query holds back, and what is to be done with `msg` given that
/// `failure` is held back already.
///
/// A simple query may hold several commands, each of which ends on its own. Rows that come
/// back are passed over.
pub open spec fn spec_on_simple_message(failure: Option<Error>, msg: Message) -> (
    Option<Error>,
    SimpleAction,
) {
    match msg.ty {
        MessageTy::ErrorResponse { is_fatal, code } => if is_fatal {
            (failure, SimpleAction::Finish(Some(database_error(true, code))))
        } else {
            (first_failure(failure, database_error(false, code)), SimpleAction::Skip)
        },
        MessageTy::ReadyForQuery => (failure, SimpleAction::Finish(failure)),
        MessageTy::CommandComplete(rows) => (
            failure,
            if failure is Some {
                SimpleAction::Skip
            } else {
                SimpleAction::Rows(rows)
            },
        ),
        MessageTy::NoticeResponse => (failure, SimpleAction::Skip),
        MessageTy::ParameterStatus => (failure, SimpleAction::Skip),
        MessageTy::NotificationResponse => (failure, SimpleAction::Skip),
        MessageTy::CloseComplete => (failure, SimpleAction::Skip),
        MessageTy::DataRow(_) => (failure, SimpleAction::Skip),
        MessageTy::RowDescription(_) => (failure, SimpleAction::Skip),
        MessageTy::EmptyQueryResponse => (failure, SimpleAction::Skip),
        _ => (
            failure,
            SimpleAction::Finish(Some(Error::UnexpectedDatabaseMessage { received: msg.tag })),
        ),
    }
}

/// Decides what is to be done with `msg` while a simple query runs.
pub fn on_simple_message(failure: Option<Error>, msg: Message) -> (r: (Option<Error>, SimpleAction))
    ensures
        r == spec_on_simple_message(failure, msg),
{
    match msg.ty {
        MessageTy::ErrorResponse { is_fatal, code } => {
            let reported = Error::DatabaseError { is_fatal, code };
            if is_fatal {
                (failure, SimpleAction::Finish(Some(reported)))
            } else {
                match failure {
                    Some(first) => (Some(first), SimpleAction::Skip),
                    None => (Some(reported), SimpleAction::Skip),
                }
            }
        },
        MessageTy::ReadyForQuery => (failure, SimpleAction::Finish(failure)),
        MessageTy::CommandComplete(rows) => {
            if failure.is_some() {
                (failure, SimpleAction::Skip)
            } else {
                (failure, SimpleAction::Rows(rows))
            }
        },
        MessageTy::NoticeResponse => (failure, SimpleAction::Skip),
        MessageTy::ParameterStatus => (failure, SimpleAction::Skip),
        MessageTy::NotificationResponse => (failure, SimpleAction::Skip),
        MessageTy::CloseComplete => (failure, SimpleAction::Skip),
        MessageTy::DataRow(_) => (failure, SimpleAction::Skip),
        MessageTy::RowDescription(_) => (failure, SimpleAction::Skip),
        MessageTy::EmptyQueryResponse => (failure, SimpleAction::Skip),
        _ => (
            failure,
            SimpleAction::Finish(Some(Error::UnexpectedDatabaseMessage { received: msg.tag })),
        ),
    }
}

/// The key for cancelling requests that is held once `msg` arrived while a session starts,
/// given the key `key` that was held, and how the start ended with `msg`, if it ended: with a
/// failure or without one.
///
/// The server tells about itself until it waits for the first command. A failure that it
/// reports ends the start, and so does a message that has no place in it.
pub open spec fn spec_on_session_message(key: Option<(u32, u32)>, msg: Message) -> (
    Option<(u32, u32)>,
    Option<Option<Error>>,
) {
    match msg.ty {
        MessageTy::BackendKeyData(process_id, secret_key) => (Some((process_id, secret_key)), None),
        MessageTy::NoticeResponse => (key, None),
        MessageTy::ParameterStatus => (key, None),
        MessageTy::ReadyForQuery => (key, Some(None)),
        MessageTy::ErrorResponse { is_fatal, code } => (
            key,
            Some(Some(database_error(is_fatal, code))),
        ),
        _ => (key, Some(Some(Error::UnexpectedDatabaseMessage { received: msg.tag }))),
    }
}

/// Decides what is to be done with `msg` while a session starts.
pub fn on_session_message(key: Option<(u32, u32)>, msg: Message) -> (r: (
    Option<(u32, u32)>,
    Option<Option<Error>>,
))
    ensures
        r == spec_on_session_message(key, msg),
{
    match msg.ty {
        MessageTy::BackendKeyData(process_id, secret_key) => (Some((process_id, secret_key)), None),
        MessageTy::NoticeResponse => (key, None),
        MessageTy::ParameterStatus => (key, None),
        MessageTy::ReadyForQuery => (key, Some(None)),
        MessageTy::ErrorResponse { is_fatal, code } => (
            key,
            Some(Some(Error::DatabaseError { is_fatal, code })),
        ),
        _ => (key, Some(Some(Error::UnexpectedDatabaseMessage { received: msg.tag }))),
    }
}

/// Why `msg`, which arrived where an authentication request is waited for, is none: the
/// server reported a failure, or the message has no place there. Nothing if it is one.
pub open spec fn spec_on_awaited_request(msg: Message) -> Option<Error> {
    match msg.ty {
        MessageTy::Authentication => None,
        MessageTy::ErrorResponse { is_fatal, code } => Some(database_error(is_fatal, code)),
        _ => Some(Error::UnexpectedDatabaseMessage { received: msg.tag }),
    }
}

/// Decides if `msg` is the authentication request that is waited for.
pub fn on_awaited_request(msg: Message) -> (r: Option<Error>)
    ensures
        r == spec_on_awaited_request(msg),
{
    match msg.ty {
        MessageTy::Authentication => None,
        MessageTy::ErrorResponse { is_fatal, code } => Some(Error::DatabaseError { is_fatal, code }),
        _ => Some(Error::UnexpectedDatabaseMessage { received: msg.tag }),
    }
}

/// How far a client is with showing that it knows the password.
#[derive(Debug, Clone, Copy, PartialEq, Eq)]
pub enum AuthStage {
    /// Nothing was asked for yet.
    Start,
    /// A salted MD5 digest was asked for and sent.
    Md5Shown,
    /// SCRAM-SHA-256 was offered and the client has said what it says first.
    SaslBegun,
    /// The challenge of the server was answered.
    SaslAnswered,
    /// The server has shown that it knows the password too.
    SaslVerified,
}

/// What is to be done about an authentication request.
#[derive(Debug, Clone, Copy, PartialEq, Eq)]
pub enum AuthStep {
    /// Nothing more: the client is authenticated.
    Done,
    /// The salted MD5 digest that the request asks for is sent.
    ShowMd5,
    /// The client says what it says first, bound to the channel as told.
    BeginSasl(ChannelBinding),
    /// The challenge in the request is answered.
    Answer,
    /// The verifier in the request is checked.
    Verify,
    /// The request has no place here.
    Refuse,
}

/// What is to be done about the authentication request `auth` that arrived at the stage
/// `stage`, over a channel that is encrypted or not.
///
/// A server that asks for nothing is believed. At the start it may ask for a salted MD5
/// digest or offer mechanisms, of which SCRAM-SHA-256 is taken if it is among them. After
/// that only what continues the exchange that was begun has a place: the acceptance behind
/// a digest, the challenge behind what the client said first, the verifier behind the answer
/// to the challenge, and the acceptance behind the verifier.
pub open spec fn spec_on_request(
    stage: AuthStage,
    auth: AuthenticationView,
    is_encrypted: bool,
) -> AuthStep {
    match stage {
        AuthStage::Start => match auth {
            AuthenticationView::Success => AuthStep::Done,
            AuthenticationView::Md5Password(_) => AuthStep::ShowMd5,
            AuthenticationView::Sasl(mechanisms) => match spec_choose_binding(
                mechanisms,
                is_encrypted,
            ) {
                Some(binding) => AuthStep::BeginSasl(binding),
                None => AuthStep::Refuse,
            },
            _ => AuthStep::Refuse,
        },
        AuthStage::Md5Shown => match auth {
            AuthenticationView::Success => AuthStep::Done,
            _ => AuthStep::Refuse,
        },
        AuthStage::SaslBegun => match auth {
            AuthenticationView::SaslContinue { .. } => AuthStep::Answer,
            _ => AuthStep::Refuse,
        },
        AuthStage::SaslAnswered => match auth {
            AuthenticationView::SaslFinal(_) => AuthStep::Verify,
            _ => AuthStep::Refuse,
        },
        AuthStage::SaslVerified => match auth {
            AuthenticationView::Success => AuthStep::Done,
            _ => AuthStep::Refuse,
        },
    }
}

/// Decides what is to be done about the authentication request `auth`.
pub fn on_request(stage: AuthStage, auth: &Authentication<'_>, is_encrypted: bool) -> (r: AuthStep)
    ensures
        r == spec_on_request(stage, auth@, is_encrypted),
{
    match stage {
        AuthStage::Start => match auth {
            Authentication::Success => AuthStep::Done,
            Authentication::Md5Password(_) => AuthStep::ShowMd5,
            Authentication::Sasl(mechanisms) => match choose_binding(mechanisms, is_encrypted) {
                Some(binding) => AuthStep::BeginSasl(binding),
                None => AuthStep::Refuse,
            },
            _ => AuthStep::Refuse,
        },
        AuthStage::Md5Shown => match auth {
            Authentication::Success => AuthStep::Done,
            _ => AuthStep::Refuse,
        },
        AuthStage::SaslBegun => match auth {
            Authentication::SaslContinue { .. } => AuthStep::Answer,
            _ => AuthStep::Refuse,
        },
        AuthStage::SaslAnswered => match auth {
            Authentication::SaslFinal(_) => AuthStep::Verify,
            _ => AuthStep::Refuse,
        },
        AuthStage::SaslVerified => match auth {
            Authentication::Success => AuthStep::Done,
            _ => AuthStep::Refuse,
        },
    }
}

} // verus!
