//! The state machine that drives one connection.

pub mod answers;
pub mod commons;
pub mod fetch;

use crate::database::client::postgres::authentication::{
    is_parse_failure, lemma_parse_failure, spec_parse, Authentication, AuthenticationView,
};
use crate::database::client::postgres::executor::answers::{
    lemma_await_prepared_stable, lemma_await_prepared_step, lemma_await_ready_stable,
    lemma_buffered,
    lemma_await_ready_step, lemma_await_rows_stable, lemma_await_rows_step,
    lemma_await_session_stable, lemma_await_session_step, lemma_message_in_scope, message_at,
    row_offsets,
    spec_await_prepared, spec_await_ready, spec_await_rows, spec_await_session,
    spec_read_prepare_message, PreparedRecord, ReadyRecord, RowsMode, RowsRecord, SessionRecord,
    ENTRIES_OFFSET, VALUES_OFFSET,
};
use crate::database::client::postgres::config::Config;
use crate::database::client::postgres::executor::commons::{
    on_awaited_request, on_request, on_session_message, on_simple_message, AuthStage, AuthStep,
    FetchAction,
    FetchState, PrepareAction, PrepareState, SimpleAction,
};
use crate::database::client::postgres::executor::fetch::{
    fetch_msg_from_stream, fetch_next_msg_from_stream, is_buffered, is_fatal, is_fetch_failure,
    past_notices, taken_from_buffer, HEADER_LEN,
};
use crate::database::client::postgres::executor_buffer::ExecutorBuffer;
use crate::database::client::postgres::message::{spec_message_ty, Message, MessageTy};
use crate::database::client::postgres::protocol;
use crate::database::client::postgres::record::{
    answered, answered_all, for_each_record, offsets_fit, parse_values, rows_fit, rows_of,
    spec_offsets, values_of, Record, Records,
};
use crate::database::client::postgres::sasl::{self, ChannelBinding, ScramChallenge, ScramClient};
use crate::database::client::postgres::statements::{
    column_views, decimal_digits, fnv1a64, has_id, parse_columns, parse_param_types,
    position_of, spec_fnv1a64, u64_to_decimal, Column, ColumnView, Statement, StatementView,
    Statements,
};
use crate::error::Error;
use crate::misc::filled_buffer::append_bytes;
use crate::misc::partitioned_filled_buffer::{PartitionedFilledBuffer, PartitionedView};
use crate::misc::rng::Rng;
use crate::misc::stream::Stream;
use core::ops::Range;
use vstd::prelude::*;
use vstd::string::StringSliceAdditionalSpecFns;

verus! {

/// The kind byte that names a prepared statement in `Describe` and `Close`.
pub const STATEMENT_KIND: u8 = 0x53;

/// The byte that a server answers a request for encryption with if it agrees.
pub const ENCRYPTION_ACCEPTED: u8 = 0x53;

/// The tag of an authentication request.
pub const AUTHENTICATION_TAG: u8 = 0x52;

/// What an encrypted stream can tell about its channel.
pub trait TlsStream: Stream {
    /// What identifies the end point of the channel at the server, for binding the
    /// authentication to the channel; nothing if the channel has nothing of the kind.
    fn tls_server_end_point(&self) -> (r: Option<Vec<u8>>)
    ;
}

/// What is sent to prepare `cmd`: the statement is parsed under the name that spells its
/// identifier, described and synchronised.
pub open spec fn spec_prepare_request(cmd: Seq<u8>) -> Seq<u8> {
    let name = decimal_digits(spec_fnv1a64(cmd) as nat);
    protocol::spec_parse(name, cmd, Seq::empty()) + protocol::spec_describe(STATEMENT_KIND, name)
        + protocol::spec_sync()
}

/// What is sent to run the statement `id` with `params`: the values are bound to the unnamed
/// portal, the portal is run without a limit on the rows, and all is synchronised.
pub open spec fn spec_run_request(id: u64, params: Seq<Option<&[u8]>>) -> Seq<u8> {
    protocol::spec_bind(Seq::empty(), decimal_digits(id as nat), params) + protocol::spec_execute(
        Seq::empty(),
        0,
    ) + protocol::spec_sync()
}

/// Sends `bytes`. A failure leaves the connection unusable and marks it closed.
pub fn send<S>(is_closed: &mut bool, stream: &mut S, bytes: &[u8]) -> (r: Result<(), Error>) where
    S: Stream,

    ensures
        match r {
            Ok(()) => *final(is_closed) == *old(is_closed),
            Err(e) => *final(is_closed) && e is Io,
        },
{
    match stream.write_all(bytes) {
        Ok(()) => Ok(()),
        Err(kind) => {
            *is_closed = true;
            Err(Error::Io(kind))
        },
    }
}

/// What is known of the answer to a simple query that lies in `nb` from `begin` on.
pub open spec fn ready_in(nb: PartitionedView, begin: int) -> ReadyRecord {
    spec_await_ready(nb.all, begin, nb.current_end as int, None, Seq::empty())
}

/// What is known of the answer to a simple query from the messages that were read ahead.
pub open spec fn ready_ahead(nb: PartitionedView) -> ReadyRecord {
    spec_await_ready(nb.all, nb.current_end as int, nb.following_end as int, None, Seq::empty())
}

/// If `r` is what a simple query comes back with whose messages decided `read`: the row
/// counts of its commands if they end the query without a failure, the failure that they end
/// it with, or the failure that kept them from being read to the end.
pub open spec fn is_ready_result(r: Result<Vec<u64>, Error>, read: ReadyRecord) -> bool {
    match r {
        Ok(rows) => read.result == Some(None::<Error>) && rows@ == read.rows,
        Err(e) => (is_fetch_failure(e) && read.result is None) || read.result == Some(Some(e)),
    }
}

#[verifier::rlimit(40)]
/// Passes over what the backend says until it waits for the next command and tells the row
/// count of every command that ended on the way.
///
/// What comes back is what the messages that were read decide, one after the other, as
/// [`spec_await_ready`] tells. A failure that the backend reports is held back until it
/// waits for the next command, so that the connection stays usable.
pub fn await_ready<S>(is_closed: &mut bool, nb: &mut PartitionedFilledBuffer, stream: &mut S) -> (r:
    Result<Vec<u64>, Error>) where S: Stream
    requires
        old(nb).inv(),
    ensures
        final(nb).inv(),
        final(nb)@.current_end >= old(nb)@.current_end,
        final(nb)@.len >= old(nb)@.len,
        match r {
            Ok(_) => *final(is_closed) == *old(is_closed),
            Err(e) => is_answer_failure(e) && ((e matches Error::DatabaseError {
                is_fatal: false,
                ..
            }) || *final(is_closed)),
        },
        ready_in(final(nb)@, old(nb)@.current_end as int).end == final(nb)@.current_end,
        is_ready_result(r, ready_in(final(nb)@, old(nb)@.current_end as int)),
        ready_ahead(old(nb)@).result is Some ==> {
            &&& *final(stream) == *old(stream)
            &&& final(nb)@.all == old(nb)@.all
            &&& ready_in(final(nb)@, old(nb)@.current_end as int) == ready_ahead(old(nb)@)
        },
{
    let ghost begin = old(nb)@.current_end as int;
    let ghost ahead = ready_ahead(old(nb)@);
    let mut rows: Vec<u64> = Vec::new();
    let mut failure: Option<Error> = None;
    proof {
        nb.lemma_ordered();
    }
    loop
        invariant
            nb.inv(),
            begin == old(nb)@.current_end,
            nb@.current_end >= old(nb)@.current_end,
            nb@.len >= old(nb)@.len,
            *is_closed == *old(is_closed),
            failure matches Some(Error::DatabaseError { is_fatal, .. }) ==> !is_fatal,
            failure matches Some(e) ==> e is DatabaseError,
            spec_await_ready(nb@.all, begin, nb@.current_end as int, None, Seq::empty()) == (
            ReadyRecord { failure, rows: rows@, end: nb@.current_end as int, result: None }),
            ahead == ready_ahead(old(nb)@),
            ahead.result is Some ==> {
                &&& *stream == *old(stream)
                &&& nb@.all == old(nb)@.all
                &&& nb@.following_end == old(nb)@.following_end
                &&& spec_await_ready(
                    nb@.all,
                    nb@.current_end as int,
                    nb@.following_end as int,
                    failure,
                    rows@,
                ) == ahead
            },
        decreases usize::MAX - nb@.current_end,
    {
        proof {
            nb.lemma_ordered();
            lemma_buffered(nb@);
        }
        let ghost before = nb@;
        let ghost cur = nb@.current_end as int;
        let fetched = fetch_next_msg_from_stream(is_closed, nb, stream);
        proof {
            nb.lemma_ordered();
            if nb@.current_end == cur {
                assert(before.all.subrange(0, cur) =~= before.all.subrange(
                    0,
                    before.following_end as int,
                ).subrange(0, cur));
                assert(nb@.all.subrange(0, cur) =~= nb@.all.subrange(
                    0,
                    before.following_end as int,
                ).subrange(0, cur));
                lemma_await_ready_stable(before.all, nb@.all, begin, cur, None, Seq::empty());
            } else {
                lemma_await_ready_step(before, nb@, begin, None, Seq::empty());
            }
        }
        let msg = match fetched {
            Ok(msg) => msg,
            Err(e) => {
                return Err(e);
            },
        };
        let (held, action) = on_simple_message(failure, msg);
        failure = held;
        match action {
            SimpleAction::Skip => {},
            SimpleAction::Rows(n) => {
                rows.push(n);
            },
            SimpleAction::Finish(None) => {
                return Ok(rows);
            },
            SimpleAction::Finish(Some(e)) => {
                match e {
                    Error::DatabaseError { .. } => {},
                    _ => {
                        *is_closed = true;
                    },
                }
                return Err(e);
            },
        }
    }
}

/// If the request to prepare `cmd` can be written: its text is not longer than a length field
/// can tell.
pub open spec fn prepare_fits(cmd: Seq<u8>) -> bool {
    decimal_digits(spec_fnv1a64(cmd) as nat).len() + cmd.len() + 8 <= protocol::MAX_MESSAGE_LEN
}

/// If the request to run the statement `id` with `params` can be written.
pub open spec fn run_fits(id: u64, params: Seq<Option<&[u8]>>) -> bool {
    protocol::bind_fits(Seq::empty(), decimal_digits(id as nat), params)
}

/// If `e` is a failure of opening a session once the start-up message went out: an answer
/// failed to arrive or to be read, the server refused, or one side could not show the other
/// that it knows the password.
pub open spec fn is_session_failure(e: Error) -> bool {
    is_answer_failure(e) || is_parse_failure(e) || e == Error::SaslVerificationFailed || e
        == Error::InvalidEndpointBinding
}

/// If `e` is a failure of waiting for an answer: the next message could not be got at, the
/// backend reported a failure, or a message arrived that has no place in the answer.
pub open spec fn is_answer_failure(e: Error) -> bool {
    is_fetch_failure(e) || e is DatabaseError || e is UnexpectedDatabaseMessage
}

/// The statements `stmts` with room for one more in a cache of `capacity` statements: a full
/// cache lets its least recently used statement go.
pub open spec fn with_room(stmts: Seq<StatementView>, capacity: nat) -> Seq<StatementView> {
    if stmts.len() >= capacity {
        stmts.drop_first()
    } else {
        stmts
    }
}

/// The statements `stmts` with the statement `id` moved to the most recently used end.
pub open spec fn touched(stmts: Seq<StatementView>, id: u64) -> Seq<StatementView> {
    stmts.remove(position_of(stmts, id)).push(stmts[position_of(stmts, id)])
}

/// Writes the request to prepare `cmd` into `out`, in place of what `out` held, and tells the
/// identifier of the statement.
pub fn write_prepare_request(out: &mut Vec<u8>, cmd: &[u8]) -> (r: Result<u64, Error>)
    ensures
        match r {
            Ok(id) => {
                &&& id == spec_fnv1a64(cmd@)
                &&& prepare_fits(cmd@)
                &&& final(out)@ == spec_prepare_request(cmd@)
            },
            Err(e) => {
                &&& e == Error::CapacityOverflow
                &&& !prepare_fits(cmd@)
                &&& final(out)@ == Seq::<u8>::empty()
            },
        },
{
    let id: u64 = fnv1a64(cmd);
    let name = u64_to_decimal(id);
    out.clear();
    let no_types: [u32; 0] = [];
    assert(no_types@ =~= Seq::<u32>::empty());
    match protocol::parse(out, name.as_slice(), cmd, no_types.as_slice()) {
        Ok(()) => {},
        Err(e) => {
            return Err(e);
        },
    }
    match protocol::describe(out, STATEMENT_KIND, name.as_slice()) {
        Ok(()) => {},
        Err(e) => {
            return Err(e);
        },
    }
    protocol::sync(out);
    Ok(id)
}

/// Writes the request to run the statement `id` with `params` into `out`, in place of what
/// `out` held.
pub fn write_run_request(out: &mut Vec<u8>, id: u64, params: &[Option<&[u8]>]) -> (r: Result<
    (),
    Error,
>)
    ensures
        match r {
            Ok(()) => run_fits(id, params@) && final(out)@ == spec_run_request(id, params@),
            Err(e) => {
                &&& e == Error::CapacityOverflow
                &&& !run_fits(id, params@)
                &&& final(out)@ == Seq::<u8>::empty()
            },
        },
{
    let name = u64_to_decimal(id);
    let portal: [u8; 0] = [];
    assert(portal@ =~= Seq::<u8>::empty());
    out.clear();
    match protocol::bind(out, portal.as_slice(), name.as_slice(), params) {
        Ok(()) => {},
        Err(e) => {
            return Err(e);
        },
    }
    match protocol::execute(out, portal.as_slice(), 0) {
        Ok(()) => {},
        Err(e) => {
            return Err(e);
        },
    }
    protocol::sync(out);
    Ok(())
}

/// The request that has the backend let go of the statement `id`.
pub open spec fn spec_close_request(id: u64) -> Seq<u8> {
    protocol::spec_close(STATEMENT_KIND, decimal_digits(id as nat)) + protocol::spec_sync()
}

/// Makes room for one more statement: if the cache is full, the backend is asked to let go of
/// the least recently used statement, and once it has answered the statement leaves the
/// cache. The request is left in `out`. A cache with room is left alone and nothing is sent.
pub fn make_room<S>(
    is_closed: &mut bool,
    nb: &mut PartitionedFilledBuffer,
    stream: &mut S,
    stmts: &mut Statements,
    out: &mut Vec<u8>,
) -> (r: Result<(), Error>) where S: Stream
    requires
        old(nb).inv(),
        old(stmts).inv(),
    ensures
        final(nb).inv(),
        final(stmts).inv(),
        final(stmts).spec_capacity() == old(stmts).spec_capacity(),
        final(nb)@.current_end >= old(nb)@.current_end,
        final(nb)@.len >= old(nb)@.len,
        old(stmts)@.len() < old(stmts).spec_capacity() ==> {
            &&& r is Ok
            &&& final(stmts)@ == old(stmts)@
            &&& final(nb)@ == old(nb)@
            &&& final(out)@ == old(out)@
            &&& *final(stream) == *old(stream)
            &&& *final(is_closed) == *old(is_closed)
        },
        old(stmts)@.len() >= old(stmts).spec_capacity() ==> {
            &&& final(out)@ == spec_close_request(old(stmts)@[0].id)
            &&& match r {
                Ok(()) => ready_in(final(nb)@, old(nb)@.current_end as int).result == Some(
                    None::<Error>,
                ),
                Err(e) => {
                    ||| is_fetch_failure(e) && ready_in(
                        final(nb)@,
                        old(nb)@.current_end as int,
                    ).result is None
                    ||| ready_in(final(nb)@, old(nb)@.current_end as int).result == Some(Some(e))
                },
            }
        },
        match r {
            Ok(()) => {
                &&& final(stmts)@ == with_room(old(stmts)@, old(stmts).spec_capacity())
                &&& final(stmts)@.len() < final(stmts).spec_capacity()
                &&& *final(is_closed) == *old(is_closed)
            },
            Err(e) => {
                &&& final(stmts)@ == old(stmts)@
                &&& is_answer_failure(e)
                &&& (e matches Error::DatabaseError { is_fatal: false, .. }) || *final(is_closed)
            },
        },
{
    proof {
        nb.lemma_ordered();
    }
    match stmts.least_recently_used() {
        Some(victim) => {
            if !stmts.is_full() {
                return Ok(());
            }
            let name = u64_to_decimal(victim);
            out.clear();
            match protocol::close(out, STATEMENT_KIND, name.as_slice()) {
                Ok(()) => {},
                Err(e) => {
                    return Err(e);
                },
            }
            protocol::sync(out);
            match send(is_closed, stream, out.as_slice()) {
                Ok(()) => {},
                Err(e) => {
                    return Err(e);
                },
            }
            match await_ready(is_closed, nb, stream) {
                Ok(_) => {},
                Err(e) => {
                    return Err(e);
                },
            }
            let _ = stmts.evict();
            Ok(())
        },
        None => Ok(()),
    }
}

/// What is known of the answer to a preparation that lies in `nb` from `begin` on.
pub open spec fn prepared_in(nb: PartitionedView, begin: int) -> PreparedRecord {
    spec_await_prepared(
        nb.all,
        begin,
        nb.current_end as int,
        PrepareState { is_parsed: false, is_described: false, failure: None },
        Seq::empty(),
        Seq::empty(),
    )
}

#[verifier::rlimit(40)]
/// Has the backend prepare `cmd`, which it does not hold prepared, and takes the statement
/// in as the most recently used one once the backend has confirmed it. The cache has room
/// for it. The request is left in `out`.
///
/// What comes back is what the messages that were read decide, one after the other, as
/// [`spec_await_prepared`] tells, and the statement that is taken in is the one that they
/// describe.
pub fn prepare_statement<S>(
    is_closed: &mut bool,
    nb: &mut PartitionedFilledBuffer,
    stream: &mut S,
    stmts: &mut Statements,
    out: &mut Vec<u8>,
    cmd: &[u8],
) -> (r: Result<u64, Error>) where S: Stream
    requires
        old(nb).inv(),
        old(stmts).inv(),
        old(stmts)@.len() < old(stmts).spec_capacity(),
        !has_id(old(stmts)@, spec_fnv1a64(cmd@)),
    ensures
        final(nb).inv(),
        final(stmts).inv(),
        final(stmts).spec_capacity() == old(stmts).spec_capacity(),
        final(nb)@.current_end >= old(nb)@.current_end,
        final(nb)@.len >= old(nb)@.len,
        (r matches Err(Error::CapacityOverflow)) <==> !prepare_fits(cmd@),
        !prepare_fits(cmd@) ==> {
            &&& *final(stream) == *old(stream)
            &&& final(nb)@ == old(nb)@
            &&& final(stmts)@ == old(stmts)@
            &&& *final(is_closed) == *old(is_closed)
        },
        prepare_fits(cmd@) ==> ({
            let read = prepared_in(final(nb)@, old(nb)@.current_end as int);
            &&& final(out)@ == spec_prepare_request(cmd@)
            &&& read.end == final(nb)@.current_end
            &&& match r {
                Ok(id) => {
                    &&& id == spec_fnv1a64(cmd@)
                    &&& read.result == Some(None::<Error>)
                    &&& final(stmts)@ == old(stmts)@.push(
                        StatementView { id, columns: read.columns, param_types: read.param_types },
                    )
                    &&& *final(is_closed) == *old(is_closed)
                },
                Err(e) => {
                    &&& (is_fetch_failure(e) && read.result is None) || read.result == Some(Some(e))
                    &&& is_answer_failure(e)
                    &&& final(stmts)@ == old(stmts)@
                    &&& (e matches Error::DatabaseError { is_fatal: false, .. }) || *final(is_closed)
                },
            }
        }),
{
    let ghost begin = old(nb)@.current_end as int;
    let ghost init = PrepareState { is_parsed: false, is_described: false, failure: None };
    let id: u64 = match write_prepare_request(out, cmd) {
        Ok(id) => id,
        Err(e) => {
            return Err(e);
        },
    };
    proof {
        nb.lemma_ordered();
    }
    match send(is_closed, stream, out.as_slice()) {
        Ok(()) => {},
        Err(e) => {
            return Err(e);
        },
    }
    let mut state = PrepareState::new();
    let mut columns: Vec<Column> = Vec::new();
    let mut param_types: Vec<u32> = Vec::new();
    proof {
        assert(column_views(columns@) =~= Seq::<ColumnView>::empty());
        assert(param_types@ =~= Seq::<u32>::empty());
    }
    loop
        invariant
            nb.inv(),
            stmts.inv(),
            *stmts == *old(stmts),
            stmts@.len() < stmts.spec_capacity(),
            !has_id(stmts@, id),
            prepare_fits(cmd@),
            id == spec_fnv1a64(cmd@),
            out@ == spec_prepare_request(cmd@),
            begin == old(nb)@.current_end,
            init == (PrepareState { is_parsed: false, is_described: false, failure: None }),
            nb@.current_end >= old(nb)@.current_end,
            nb@.len >= old(nb)@.len,
            *is_closed == *old(is_closed),
            is_held_back(state.failure),
            spec_await_prepared(
                nb@.all,
                begin,
                nb@.current_end as int,
                init,
                Seq::empty(),
                Seq::empty(),
            ) == (PreparedRecord {
                state,
                columns: column_views(columns@),
                param_types: param_types@,
                end: nb@.current_end as int,
                result: None,
            }),
        decreases usize::MAX - nb@.current_end,
    {
        proof {
            nb.lemma_ordered();
        }
        let ghost before = nb@;
        let ghost cur = nb@.current_end as int;
        let fetched = fetch_next_msg_from_stream(is_closed, nb, stream);
        proof {
            nb.lemma_ordered();
            if nb@.current_end == cur {
                assert(before.all.subrange(0, cur) =~= before.all.subrange(
                    0,
                    before.following_end as int,
                ).subrange(0, cur));
                assert(nb@.all.subrange(0, cur) =~= nb@.all.subrange(
                    0,
                    before.following_end as int,
                ).subrange(0, cur));
                lemma_await_prepared_stable(
                    before.all,
                    nb@.all,
                    begin,
                    cur,
                    init,
                    Seq::empty(),
                    Seq::empty(),
                );
            } else {
                lemma_await_prepared_step(before, nb@, begin, init, Seq::empty(), Seq::empty());
            }
        }
        let msg = match fetched {
            Ok(msg) => msg,
            Err(e) => {
                return Err(e);
            },
        };
        match take_prepare_message(nb, msg, &mut state, &mut columns, &mut param_types) {
            None => {},
            Some(None) => {
                let back = stmts.push(Statement { id, columns, param_types });
                assert(back is None);
                return Ok(id);
            },
            Some(Some(e)) => {
                match e {
                    Error::DatabaseError { .. } => {},
                    _ => {
                        *is_closed = true;
                    },
                }
                return Err(e);
            },
        }
    }
}

/// If `failure` is one that is held back until the backend waits for the next command: a
/// failure that the backend reported and that leaves the connection usable.
pub open spec fn is_held_back(failure: Option<Error>) -> bool {
    failure matches Some(e) ==> e matches Error::DatabaseError { is_fatal: false, .. }
}

/// Acts on the message in scope, which is `msg`, while a statement is being prepared: what
/// is known of the statement is brought up to date, and how the preparation ended is told,
/// if it ended, all as [`spec_read_prepare_message`] tells.
pub fn take_prepare_message(
    nb: &PartitionedFilledBuffer,
    msg: Message,
    state: &mut PrepareState,
    columns: &mut Vec<Column>,
    param_types: &mut Vec<u32>,
) -> (r: Option<Option<Error>>)
    requires
        nb.inv(),
        message_at(nb@.all, nb@.antecedent_end as int) == nb@.current(),
        nb@.current().len() >= HEADER_LEN,
        msg.tag == nb@.current()[0],
        spec_message_ty(nb@.current()) == Ok::<MessageTy, Error>(msg.ty),
    ensures
        ({
            let step = spec_read_prepare_message(
                nb@.all,
                nb@.antecedent_end as int,
                *old(state),
                column_views(old(columns)@),
                old(param_types)@,
            );
            &&& step.state == *final(state)
            &&& step.columns == column_views(final(columns)@)
            &&& step.param_types == final(param_types)@
            &&& step.result == r
        }),
        r is None ==> !is_fatal(msg.ty),
        is_held_back(old(state).failure) ==> {
            &&& is_held_back(final(state).failure)
            &&& r matches Some(Some(e)) ==> is_answer_failure(e)
            &&& r matches Some(Some(Error::DatabaseError { is_fatal: true, .. })) ==> is_fatal(
                msg.ty,
            )
        },
{
    proof {
        nb.lemma_ordered();
    }
    let (next, action) = state.on_message(msg);
    *state = next;
    match action {
        PrepareAction::Skip => None,
        PrepareAction::Params(n) => {
            let current = nb.current();
            if current.len() < ENTRIES_OFFSET {
                return Some(Some(Error::UnexpectedValueFromBytes));
            }
            let entries = vstd::slice::slice_subrange(current, ENTRIES_OFFSET, current.len());
            match parse_param_types(entries, n) {
                Ok(types) => {
                    *param_types = types;
                    None
                },
                Err(e) => Some(Some(e)),
            }
        },
        PrepareAction::Columns(n) => {
            let current = nb.current();
            if current.len() < ENTRIES_OFFSET {
                return Some(Some(Error::UnexpectedValueFromBytes));
            }
            let entries = vstd::slice::slice_subrange(current, ENTRIES_OFFSET, current.len());
            match parse_columns(entries, n) {
                Ok(described) => {
                    *columns = described;
                    None
                },
                Err(e) => Some(Some(e)),
            }
        },
        PrepareAction::Finish(outcome) => Some(outcome),
    }
}

#[verifier::rlimit(40)]
/// Makes sure that the backend holds `cmd` prepared. Tells where in the buffer the answer to
/// the preparation begins, if there is one, and the identifier of the statement.
///
/// A statement that is held already is only marked as the most recently used one: nothing is
/// sent and nothing is read. A statement whose text is too long to be sent is refused before
/// anything is sent. Otherwise room is made as [`make_room`] tells and the statement is
/// prepared as [`prepare_statement`] tells. A preparation that fails takes nothing in.
pub fn write_send_await_stmt_prot<S>(
    is_closed: &mut bool,
    nb: &mut PartitionedFilledBuffer,
    stream: &mut S,
    stmts: &mut Statements,
    out: &mut Vec<u8>,
    cmd: &[u8],
) -> (r: (usize, Result<u64, Error>)) where S: Stream
    requires
        old(nb).inv(),
        old(stmts).inv(),
    ensures
        final(nb).inv(),
        final(stmts).inv(),
        final(stmts).spec_capacity() == old(stmts).spec_capacity(),
        old(nb)@.current_end <= r.0 <= final(nb)@.current_end,
        final(nb)@.len >= old(nb)@.len,
        has_id(old(stmts)@, spec_fnv1a64(cmd@)) ==> {
            &&& r.1 == Ok::<u64, Error>(spec_fnv1a64(cmd@))
            &&& *final(stream) == *old(stream)
            &&& final(nb)@ == old(nb)@
            &&& final(out)@ == old(out)@
            &&& *final(is_closed) == *old(is_closed)
            &&& final(stmts)@ == touched(old(stmts)@, spec_fnv1a64(cmd@))
        },
        !has_id(old(stmts)@, spec_fnv1a64(cmd@)) && !prepare_fits(cmd@) ==> {
            &&& r.1 == Err::<u64, Error>(Error::CapacityOverflow)
            &&& *final(stream) == *old(stream)
            &&& final(nb)@ == old(nb)@
            &&& *final(is_closed) == *old(is_closed)
            &&& final(stmts)@ == old(stmts)@
        },
        !has_id(old(stmts)@, spec_fnv1a64(cmd@)) && prepare_fits(cmd@) ==> ({
            let read = prepared_in(final(nb)@, r.0 as int);
            &&& read.end == final(nb)@.current_end
            &&& final(out)@ == spec_prepare_request(cmd@)
            &&& match r.1 {
                Ok(id) => {
                    &&& id == spec_fnv1a64(cmd@)
                    &&& *final(is_closed) == *old(is_closed)
                    &&& read.result == Some(None::<Error>)
                    &&& final(stmts)@ == with_room(old(stmts)@, old(stmts).spec_capacity()).push(
                        StatementView { id, columns: read.columns, param_types: read.param_types },
                    )
                },
                Err(e) => {
                    &&& is_answer_failure(e)
                    &&& !has_id(final(stmts)@, spec_fnv1a64(cmd@))
                    &&& final(stmts)@ == old(stmts)@ || final(stmts)@ == old(stmts)@.drop_first()
                    &&& (e matches Error::DatabaseError { is_fatal: false, .. }) || *final(is_closed)
                    &&& if old(stmts)@.len() >= old(stmts).spec_capacity() && final(stmts)@.len()
                        == old(stmts)@.len() {
                        read.result is None
                    } else {
                        (is_fetch_failure(e) && read.result is None) || read.result == Some(Some(e))
                    }
                },
            }
        }),
{
    proof {
        nb.lemma_ordered();
    }
    let id: u64 = fnv1a64(cmd);
    if stmts.touch(id) {
        return (nb.current_end_idx(), Ok(id));
    }
    match write_prepare_request(out, cmd) {
        Ok(_) => {},
        Err(e) => {
            return (nb.current_end_idx(), Err(e));
        },
    }
    let mut close_request: Vec<u8> = Vec::new();
    let room = make_room(is_closed, nb, stream, stmts, &mut close_request);
    proof {
        nb.lemma_ordered();
        lemma_no_id_without_first(old(stmts)@, id);
    }
    let begin: usize = nb.current_end_idx();
    match room {
        Ok(()) => {},
        Err(e) => {
            return (begin, Err(e));
        },
    }
    let prepared = prepare_statement(is_closed, nb, stream, stmts, out, cmd);
    proof {
        nb.lemma_ordered();
    }
    (begin, prepared)
}

/// A statement that is not among some statements is not among all but the first of them.
pub proof fn lemma_no_id_without_first(stmts: Seq<StatementView>, id: u64)
    requires
        !has_id(stmts, id),
    ensures
        stmts.len() > 0 ==> !has_id(stmts.drop_first(), id),
{
    if stmts.len() > 0 && has_id(stmts.drop_first(), id) {
        let i = choose|i: int|
            0 <= i < stmts.drop_first().len() && (#[trigger] stmts.drop_first()[i]).id == id;
        assert(stmts[i + 1].id == id);
    }
}

/// Binds `params` to the statement `id`, runs it and asks the backend to answer. A request that
/// can not be written is refused before anything is sent.
pub fn write_send_await_stmt_initial<S>(
    is_closed: &mut bool,
    stream: &mut S,
    out: &mut Vec<u8>,
    id: u64,
    params: &[Option<&[u8]>],
) -> (r: Result<(), Error>) where S: Stream
    ensures
        !run_fits(id, params@) ==> {
            &&& r == Err::<(), Error>(Error::CapacityOverflow)
            &&& *final(stream) == *old(stream)
            &&& *final(is_closed) == *old(is_closed)
        },
        run_fits(id, params@) ==> final(out)@ == spec_run_request(id, params@) && match r {
            Ok(()) => *final(is_closed) == *old(is_closed),
            Err(e) => e is Io && *final(is_closed),
        },
{
    match write_run_request(out, id, params) {
        Ok(()) => {},
        Err(e) => {
            return Err(e);
        },
    }
    send(is_closed, stream, out.as_slice())
}

/// Offsets that fit into some bytes fit into more bytes.
pub proof fn lemma_offsets_fit_more(offsets: Seq<(bool, Range<usize>)>, len: int, more: int)
    requires
        offsets_fit(offsets, len),
        len <= more,
    ensures
        offsets_fit(offsets, more),
{
    assert forall|i: int| 0 <= i < offsets.len() implies (#[trigger] offsets[i]).1.start
        <= offsets[i].1.end <= more by {
        assert(offsets[i].1.end <= len);
    }
}

/// Keeps the row in scope, which has `n` values: where its values lie is appended to `vb` and
/// where the row ends among the values is appended to `rb`. A row whose bytes end before its
/// values do is refused and nothing is kept of it.
pub fn keep_row(
    nb: &PartitionedFilledBuffer,
    rb: &mut Vec<usize>,
    vb: &mut Vec<(bool, Range<usize>)>,
    n: u16,
) -> (r: Result<(), Error>)
    requires
        nb.inv(),
        nb@.current_end - nb@.antecedent_end >= VALUES_OFFSET,
        offsets_fit(old(vb)@, nb@.len as int),
        rows_fit(old(rb)@, old(vb)@.len() as int),
    ensures
        offsets_fit(final(vb)@, nb@.len as int),
        rows_fit(final(rb)@, final(vb)@.len() as int),
        match r {
            Ok(()) => {
                &&& spec_offsets(
                    nb@.all.subrange(0, nb@.current_end as int),
                    nb@.antecedent_end + VALUES_OFFSET,
                    n as nat,
                ) matches Some(offsets) && final(vb)@ == old(vb)@ + offsets
                &&& final(rb)@ == old(rb)@.push(final(vb)@.len() as usize)
            },
            Err(e) => {
                &&& e == Error::UnexpectedValueFromBytes
                &&& spec_offsets(
                    nb@.all.subrange(0, nb@.current_end as int),
                    nb@.antecedent_end + VALUES_OFFSET,
                    n as nat,
                ) is None
                &&& final(rb)@ == old(rb)@
                &&& final(vb)@ == old(vb)@
            },
        },
{
    proof {
        nb.lemma_ordered();
    }
    let bytes = vstd::slice::slice_subrange(nb.buffer(), 0, nb.current_end_idx());
    assert(bytes@ =~= nb@.all.subrange(0, nb@.current_end as int));
    let start: usize = nb.antecedent_end_idx() + VALUES_OFFSET;
    match parse_values(bytes, start, n, vb) {
        Ok(()) => {},
        Err(e) => {
            return Err(e);
        },
    }
    proof {
        let kept = vb@.subrange(old(vb)@.len() as int, vb@.len() as int);
        assert forall|i: int| 0 <= i < vb@.len() implies (#[trigger] vb@[i]).1.start
            <= vb@[i].1.end <= nb@.len by {
            if i < old(vb)@.len() {
                assert(vb@[i] == vb@.subrange(0, old(vb)@.len() as int)[i]);
            } else {
                assert(vb@[i] == kept[i - old(vb)@.len()]);
            }
        }
    }
    let ghost ends = rb@;
    rb.push(vb.len());
    proof {
        assert forall|i: int, j: int| 0 <= i <= j < rb@.len() implies #[trigger] rb@[i]
            <= #[trigger] rb@[j] by {
            if j < ends.len() {
                assert(ends[i] <= ends[j]);
            } else if i < ends.len() {
                assert(ends[i] <= old(vb)@.len());
            }
        }
        assert forall|i: int| 0 <= i < rb@.len() implies #[trigger] rb@[i] <= vb@.len() by {
            if i < ends.len() {
                assert(ends[i] <= old(vb)@.len());
            }
        }
    }
    Ok(())
}

/// What is known of the answer to a run request from the messages that were read ahead, when
/// rows are kept as `mode` asks behind the rows `rb` and the values `vb`.
pub open spec fn answer_ahead(
    nb: PartitionedView,
    mode: RowsMode,
    rb: Seq<usize>,
    vb: Seq<(bool, Range<usize>)>,
) -> RowsRecord {
    spec_await_rows(
        nb.all,
        nb.current_end as int,
        nb.following_end as int,
        mode,
        FetchState { is_bound: false, rows: 0, failure: None },
        rb,
        vb,
    )
}

/// What is known of the answer to a run request that lies in `nb` from `begin` on, when rows
/// are kept as `mode` asks behind the rows `rb` and the values `vb`.
pub open spec fn answer_in(
    nb: PartitionedView,
    begin: int,
    mode: RowsMode,
    rb: Seq<usize>,
    vb: Seq<(bool, Range<usize>)>,
) -> RowsRecord {
    spec_await_rows(
        nb.all,
        begin,
        nb.current_end as int,
        mode,
        FetchState { is_bound: false, rows: 0, failure: None },
        rb,
        vb,
    )
}

#[verifier::rlimit(40)]
/// Reads what the backend answers to a bound statement until it waits for the next command,
/// keeps the rows as `mode` asks and tells the row count of the command.
///
/// A failure that the backend reports is held back until then, so that the connection stays
/// usable; the rows that arrive behind it are passed over. What comes back is what the
/// messages that were read decide, one after the other, as [`spec_await_rows`] tells: the row
/// count of the command that ended last, the failure that the backend reported first, or the
/// message that had no place.
pub fn await_rows<S>(
    is_closed: &mut bool,
    nb: &mut PartitionedFilledBuffer,
    rb: &mut Vec<usize>,
    vb: &mut Vec<(bool, Range<usize>)>,
    stream: &mut S,
    mode: RowsMode,
) -> (r: Result<u64, Error>) where S: Stream
    requires
        old(nb).inv(),
        offsets_fit(old(vb)@, old(nb)@.len as int),
        rows_fit(old(rb)@, old(vb)@.len() as int),
    ensures
        final(nb).inv(),
        final(nb)@.current_end >= old(nb)@.current_end,
        final(nb)@.len >= old(nb)@.len,
        offsets_fit(final(vb)@, final(nb)@.len as int),
        rows_fit(final(rb)@, final(vb)@.len() as int),
        match r {
            Ok(_) => *final(is_closed) == *old(is_closed),
            Err(e) => (e matches Error::DatabaseError { is_fatal: false, .. }) || *final(is_closed),
        },
        mode == RowsMode::Last && old(rb)@.len() <= 1 ==> final(rb)@.len() <= 1,
        r matches Err(e) ==> is_answer_failure(e),
        ({
            let read = answer_in(
                final(nb)@,
                old(nb)@.current_end as int,
                mode,
                old(rb)@,
                old(vb)@,
            );
            &&& read.end == final(nb)@.current_end
            &&& final(rb)@ == read.rb
            &&& final(vb)@ == read.vb
            &&& is_run_result(r, read.result)
        }),
        answer_ahead(old(nb)@, mode, old(rb)@, old(vb)@).result is Some ==> {
            &&& *final(stream) == *old(stream)
            &&& final(nb)@.all == old(nb)@.all
            &&& answer_in(final(nb)@, old(nb)@.current_end as int, mode, old(rb)@, old(vb)@)
                == answer_ahead(old(nb)@, mode, old(rb)@, old(vb)@)
        },
{
    let ghost begin = old(nb)@.current_end as int;
    let ghost ahead = answer_ahead(old(nb)@, mode, old(rb)@, old(vb)@);
    let ghost init = FetchState { is_bound: false, rows: 0, failure: None };
    let mut state = FetchState::new();
    proof {
        nb.lemma_ordered();
    }
    loop
        invariant
            nb.inv(),
            begin == old(nb)@.current_end,
            init == (FetchState { is_bound: false, rows: 0, failure: None }),
            nb@.current_end >= old(nb)@.current_end,
            nb@.len >= old(nb)@.len,
            offsets_fit(vb@, nb@.len as int),
            rows_fit(rb@, vb@.len() as int),
            mode == RowsMode::Last && old(rb)@.len() <= 1 ==> rb@.len() <= 1,
            *is_closed == *old(is_closed),
            state.failure matches Some(Error::DatabaseError { is_fatal, .. }) ==> !is_fatal,
            state.failure matches Some(e) ==> e is DatabaseError,
            spec_await_rows(
                nb@.all,
                begin,
                nb@.current_end as int,
                mode,
                init,
                old(rb)@,
                old(vb)@,
            ) == (RowsRecord {
                state,
                rb: rb@,
                vb: vb@,
                end: nb@.current_end as int,
                result: None,
            }),
            ahead == answer_ahead(old(nb)@, mode, old(rb)@, old(vb)@),
            ahead.result is Some ==> {
                &&& *stream == *old(stream)
                &&& nb@.all == old(nb)@.all
                &&& nb@.following_end == old(nb)@.following_end
                &&& spec_await_rows(
                    nb@.all,
                    nb@.current_end as int,
                    nb@.following_end as int,
                    mode,
                    state,
                    rb@,
                    vb@,
                ) == ahead
            },
        decreases usize::MAX - nb@.current_end,
    {
        proof {
            nb.lemma_ordered();
            lemma_buffered(nb@);
        }
        let ghost before = nb@;
        let ghost cur = nb@.current_end as int;
        let fetched = fetch_next_msg_from_stream(is_closed, nb, stream);
        proof {
            nb.lemma_ordered();
            lemma_offsets_fit_more(vb@, before.len as int, nb@.len as int);
            if nb@.current_end == cur {
                assert(before.all.subrange(0, cur) =~= before.all.subrange(
                    0,
                    before.following_end as int,
                ).subrange(0, cur));
                assert(nb@.all.subrange(0, cur) =~= nb@.all.subrange(
                    0,
                    before.following_end as int,
                ).subrange(0, cur));
                lemma_await_rows_stable(
                    before.all,
                    nb@.all,
                    begin,
                    cur,
                    mode,
                    init,
                    old(rb)@,
                    old(vb)@,
                );
            } else {
                lemma_await_rows_step(before, nb@, begin, mode, init, old(rb)@, old(vb)@);
            }
        }
        let msg = match fetched {
            Ok(msg) => msg,
            Err(e) => {
                return Err(e);
            },
        };
        let (next, action) = state.on_message(msg);
        state = next;
        match action {
            FetchAction::Skip => {},
            FetchAction::Row(n) => {
                match mode {
                    RowsMode::Ignore => {},
                    RowsMode::Last => {
                        rb.clear();
                        vb.clear();
                        match keep_row(nb, rb, vb, n) {
                            Ok(()) => {
                                assert(rb@ =~= seq![vb@.len() as usize]);
                                assert(vb@ =~= row_offsets(nb@.all, cur, n)->Some_0);
                            },
                            Err(e) => {
                                *is_closed = true;
                                assert(rb@ =~= Seq::<usize>::empty());
                                assert(vb@ =~= Seq::<(bool, Range<usize>)>::empty());
                                return Err(e);
                            },
                        }
                    },
                    RowsMode::All => {
                        match keep_row(nb, rb, vb, n) {
                            Ok(()) => {},
                            Err(e) => {
                                *is_closed = true;
                                return Err(e);
                            },
                        }
                    },
                }
            },
            FetchAction::Finish(Ok(rows)) => {
                return Ok(rows);
            },
            FetchAction::Finish(Err(e)) => {
                match e {
                    Error::DatabaseError { .. } => {},
                    _ => {
                        *is_closed = true;
                    },
                }
                return Err(e);
            },
        }
    }
}

/// The body of the message in scope: what follows its tag and its length.
pub open spec fn body_in(nb: PartitionedView) -> Seq<u8> {
    nb.current().subrange(HEADER_LEN as int, nb.current().len() as int)
}

/// If the message in scope is the authentication request `auth`.
pub open spec fn is_request_in(nb: PartitionedView, auth: AuthenticationView) -> bool {
    &&& spec_message_ty(nb.current()) == Ok::<MessageTy, Error>(MessageTy::Authentication)
    &&& spec_parse(body_in(nb)) == Ok::<AuthenticationView, Error>(auth)
}

/// If the message that lies in `all` from `begin` to `end` tells that the client is
/// authenticated.
pub open spec fn is_success_at(all: Seq<u8>, begin: int, end: int) -> bool {
    &&& 0 <= begin <= end <= all.len()
    &&& spec_message_ty(all.subrange(begin, end)) == Ok::<MessageTy, Error>(
        MessageTy::Authentication,
    )
    &&& spec_parse(all.subrange(begin, end).subrange(HEADER_LEN as int, end - begin)) == Ok::<
        AuthenticationView,
        Error,
    >(AuthenticationView::Success)
}

/// Moves the next message into scope, which has to be an authentication request as
/// [`on_awaited_request`] tells, and reads its body as [`spec_parse`] tells.
pub fn fetch_authentication<'nb, S>(
    is_closed: &mut bool,
    nb: &'nb mut PartitionedFilledBuffer,
    stream: &mut S,
) -> (r: Result<Authentication<'nb>, Error>) where S: Stream
    requires
        old(nb).inv(),
    ensures
        final(nb).inv(),
        final(nb)@.current_end >= old(nb)@.current_end,
        match r {
            Ok(auth) => {
                &&& final(nb)@.current_end >= old(nb)@.current_end + HEADER_LEN
                &&& *final(is_closed) == *old(is_closed)
                &&& is_request_in(final(nb)@, auth@)
            },
            Err(e) => {
                &&& *final(is_closed)
                &&& is_answer_failure(e) || is_parse_failure(e)
                &&& is_answer_failure(e) || spec_parse(body_in(final(nb)@)) == Err::<
                    AuthenticationView,
                    Error,
                >(e)
            },
        },
        is_buffered(past_notices(old(nb)@)) ==> {
            &&& final(nb)@ == taken_from_buffer(past_notices(old(nb)@))
            &&& *final(stream) == *old(stream)
            &&& r is Ok <==> spec_message_ty(final(nb)@.current()) == Ok::<MessageTy, Error>(
                MessageTy::Authentication,
            ) && spec_parse(body_in(final(nb)@)) is Ok
        },
{
    let msg = match fetch_msg_from_stream(is_closed, nb, stream) {
        Ok(msg) => msg,
        Err(e) => {
            return Err(e);
        },
    };
    match on_awaited_request(msg) {
        None => {},
        Some(e) => {
            *is_closed = true;
            return Err(e);
        },
    }
    proof {
        nb.lemma_ordered();
    }
    let current = nb.current();
    let body = vstd::slice::slice_subrange(current, HEADER_LEN, current.len());
    assert(body@ =~= body_in(nb@));
    proof {
        lemma_parse_failure(body@);
    }
    match Authentication::try_from(body) {
        Ok(auth) => Ok(auth),
        Err(e) => {
            *is_closed = true;
            Err(e)
        },
    }
}

/// Proves to the server that the password of `config` is known, with SCRAM-SHA-256, and
/// checks that the server knows it too.
///
/// `mechanisms` is what the server offers. With `tls_server_end_point` the exchange is bound
/// to the encrypted channel if the server offers that.
///
/// An end point that is too long to be told is refused with
/// [`Error::InvalidEndpointBinding`] before anything is drawn or sent, as
/// [`sasl::bound_end_point`] tells. What is done about each request of the server is what
/// [`on_request`] decides. A challenge whose answer is too long to be sent is refused with
/// [`Error::SaslVerificationFailed`], as one that can not be answered.
pub fn sasl_authenticate<RNG, S>(
    is_closed: &mut bool,
    nb: &mut PartitionedFilledBuffer,
    stream: &mut S,
    out: &mut Vec<u8>,
    config: &Config<'_>,
    binding: ChannelBinding,
    rng: &mut RNG,
    tls_server_end_point: Option<&[u8]>,
) -> (r: Result<(), Error>) where RNG: Rng, S: Stream
    requires
        old(nb).inv(),
    ensures
        final(nb).inv(),
        final(nb)@.current_end >= old(nb)@.current_end,
        match r {
            Ok(()) => {
                &&& *final(is_closed) == *old(is_closed)
                &&& exists|verifier: Seq<u8>| #[trigger]
                    is_request_in(final(nb)@, AuthenticationView::SaslFinal(verifier))
            },
            Err(e) => *final(is_closed) && is_session_failure(e),
        },
        (r matches Err(Error::InvalidEndpointBinding)) <==> sasl::spec_bound_end_point(
            binding,
            tls_server_end_point,
        ).len() > sasl::MAX_END_POINT_LEN,
        (r matches Err(Error::InvalidEndpointBinding)) ==> {
            &&& *final(stream) == *old(stream)
            &&& *final(rng) == *old(rng)
            &&& final(nb)@ == old(nb)@
            &&& final(out)@ == old(out)@
        },
{
    let end_point: &[u8] = match sasl::bound_end_point(binding, tls_server_end_point) {
        Ok(end_point) => end_point,
        Err(e) => {
            *is_closed = true;
            return Err(e);
        },
    };
    let header: &[u8] = binding.header();
    let local_nonce: [u8; 24] = sasl::nonce(rng);
    let mut client_first: Vec<u8> = Vec::new();
    append_bytes(&mut client_first, header);
    append_bytes(&mut client_first, "n=,r=".as_bytes());
    append_bytes(&mut client_first, local_nonce.as_slice());
    out.clear();
    proof {
        reveal_strlit("n=,r=");
        vstd::string::is_ascii_spec_bytes("n=,r=");
    }
    match protocol::sasl_first(out, binding.mechanism(), client_first.as_slice()) {
        Ok(()) => {},
        Err(e) => {
            *is_closed = true;
            return Err(e);
        },
    }
    match send(is_closed, stream, out.as_slice()) {
        Ok(()) => {},
        Err(e) => {
            return Err(e);
        },
    }
    let challenge = match fetch_authentication(is_closed, nb, stream) {
        Ok(challenge) => challenge,
        Err(e) => {
            return Err(e);
        },
    };
    let is_encrypted: bool = tls_server_end_point.is_some();
    let answer = match (on_request(AuthStage::SaslBegun, &challenge, is_encrypted), challenge) {
        (AuthStep::Answer, Authentication::SaslContinue { iterations, payload, nonce, salt }) => {
            let client = ScramClient {
                header,
                end_point,
                nonce: local_nonce.as_slice(),
                password: config.password,
            };
            match client.answer(&ScramChallenge { iterations, payload, nonce, salt }) {
                Ok(answer) => answer,
                Err(e) => {
                    *is_closed = true;
                    return Err(e);
                },
            }
        },
        _ => {
            *is_closed = true;
            return Err(Error::UnexpectedDatabaseMessage { received: AUTHENTICATION_TAG });
        },
    };
    out.clear();
    match protocol::sasl_second(out, answer.client_final.as_slice()) {
        Ok(()) => {},
        Err(_) => {
            *is_closed = true;
            return Err(Error::SaslVerificationFailed);
        },
    }
    match send(is_closed, stream, out.as_slice()) {
        Ok(()) => {},
        Err(e) => {
            return Err(e);
        },
    }
    proof {
        nb.lemma_ordered();
    }
    let shown = match fetch_authentication(is_closed, nb, stream) {
        Ok(shown) => shown,
        Err(e) => {
            return Err(e);
        },
    };
    match (on_request(AuthStage::SaslAnswered, &shown, is_encrypted), shown) {
        (AuthStep::Verify, Authentication::SaslFinal(verifier)) => {
            match sasl::verify_server(&answer.server_signature, verifier) {
                Ok(()) => Ok(()),
                Err(e) => {
                    *is_closed = true;
                    Err(e)
                },
            }
        },
        _ => {
            *is_closed = true;
            Err(Error::UnexpectedDatabaseMessage { received: AUTHENTICATION_TAG })
        },
    }
}

/// Answers what the server asks for until it takes the client for authenticated.
///
/// What is done about each request is what [`on_request`] decides: a server that asks for
/// nothing is believed, one that asks for a salted MD5 digest gets it, and one that offers
/// SCRAM-SHA-256 is shown that the password is known. Anything else is refused.
pub fn manage_authentication<RNG, S>(
    is_closed: &mut bool,
    nb: &mut PartitionedFilledBuffer,
    stream: &mut S,
    out: &mut Vec<u8>,
    config: &Config<'_>,
    rng: &mut RNG,
    tls_server_end_point: Option<&[u8]>,
) -> (r: Result<(), Error>) where RNG: Rng, S: Stream
    requires
        old(nb).inv(),
    ensures
        final(nb).inv(),
        final(nb)@.current_end >= old(nb)@.current_end,
        match r {
            Ok(()) => {
                &&& *final(is_closed) == *old(is_closed)
                &&& is_request_in(final(nb)@, AuthenticationView::Success)
            },
            Err(e) => *final(is_closed) && is_session_failure(e),
        },
        is_buffered(past_notices(old(nb)@)) && is_request_in(
            taken_from_buffer(past_notices(old(nb)@)),
            AuthenticationView::Success,
        ) ==> {
            &&& r is Ok
            &&& final(nb)@ == taken_from_buffer(past_notices(old(nb)@))
            &&& *final(stream) == *old(stream)
            &&& final(out)@ == old(out)@
            &&& *final(rng) == *old(rng)
        },
{
    let is_encrypted: bool = tls_server_end_point.is_some();
    let first = match fetch_authentication(is_closed, nb, stream) {
        Ok(first) => first,
        Err(e) => {
            return Err(e);
        },
    };
    let binding = match (on_request(AuthStage::Start, &first, is_encrypted), first) {
        (AuthStep::Done, _) => {
            return Ok(());
        },
        (AuthStep::ShowMd5, Authentication::Md5Password(salt)) => {
            let shown = sasl::md5_password(config.user, config.password, &salt);
            out.clear();
            match protocol::password(out, shown.as_slice()) {
                Ok(()) => {},
                Err(e) => {
                    *is_closed = true;
                    return Err(e);
                },
            }
            match send(is_closed, stream, out.as_slice()) {
                Ok(()) => {},
                Err(e) => {
                    return Err(e);
                },
            }
            proof {
                nb.lemma_ordered();
            }
            let accepted = match fetch_authentication(is_closed, nb, stream) {
                Ok(accepted) => accepted,
                Err(e) => {
                    return Err(e);
                },
            };
            return match on_request(AuthStage::Md5Shown, &accepted, is_encrypted) {
                AuthStep::Done => Ok(()),
                _ => {
                    *is_closed = true;
                    Err(Error::UnexpectedDatabaseMessage { received: AUTHENTICATION_TAG })
                },
            };
        },
        (AuthStep::BeginSasl(binding), _) => binding,
        _ => {
            *is_closed = true;
            return Err(Error::UnexpectedDatabaseMessage { received: AUTHENTICATION_TAG });
        },
    };
    proof {
        nb.lemma_ordered();
    }
    match sasl_authenticate(
        is_closed,
        nb,
        stream,
        out,
        config,
        binding,
        rng,
        tls_server_end_point,
    ) {
        Ok(()) => {},
        Err(e) => {
            return Err(e);
        },
    }
    proof {
        nb.lemma_ordered();
    }
    let accepted = match fetch_authentication(is_closed, nb, stream) {
        Ok(accepted) => accepted,
        Err(e) => {
            return Err(e);
        },
    };
    match on_request(AuthStage::SaslVerified, &accepted, is_encrypted) {
        AuthStep::Done => Ok(()),
        _ => {
            *is_closed = true;
            Err(Error::UnexpectedDatabaseMessage { received: AUTHENTICATION_TAG })
        },
    }
}

/// What is known of what a server told about itself that lies in `nb` from `begin` on.
pub open spec fn session_in(nb: PartitionedView, begin: int) -> SessionRecord {
    spec_await_session(nb.all, begin, nb.current_end as int, None)
}

/// What is known of what a server told about itself from the messages that were read ahead.
pub open spec fn session_ahead(nb: PartitionedView) -> SessionRecord {
    spec_await_session(nb.all, nb.current_end as int, nb.following_end as int, None)
}

#[verifier::rlimit(40)]
/// Passes over what the server tells about itself once the client is authenticated, until
/// it waits for the first command, and hands out the key for cancelling requests if the
/// server gave one.
///
/// What comes back is what the messages that were read decide, one after the other, as
/// [`spec_await_session`] tells. Whatever goes wrong leaves the connection closed.
pub fn read_after_authentication_data<S>(
    is_closed: &mut bool,
    nb: &mut PartitionedFilledBuffer,
    stream: &mut S,
) -> (r: Result<Option<(u32, u32)>, Error>) where S: Stream
    requires
        old(nb).inv(),
    ensures
        final(nb).inv(),
        final(nb)@.current_end >= old(nb)@.current_end,
        final(nb)@.all.len() >= old(nb)@.all.len(),
        final(nb)@.all.subrange(0, old(nb)@.current_end as int) == old(nb)@.all.subrange(
            0,
            old(nb)@.current_end as int,
        ),
        session_in(final(nb)@, old(nb)@.current_end as int).end == final(nb)@.current_end,
        match r {
            Ok(key) => {
                &&& *final(is_closed) == *old(is_closed)
                &&& session_in(final(nb)@, old(nb)@.current_end as int).result == Some(
                    None::<Error>,
                )
                &&& session_in(final(nb)@, old(nb)@.current_end as int).key == key
            },
            Err(e) => {
                &&& *final(is_closed)
                &&& is_answer_failure(e)
                &&& (is_fetch_failure(e) && session_in(
                    final(nb)@,
                    old(nb)@.current_end as int,
                ).result is None) || session_in(final(nb)@, old(nb)@.current_end as int).result
                    == Some(Some(e))
            },
        },
        session_ahead(old(nb)@).result is Some ==> {
            &&& *final(stream) == *old(stream)
            &&& final(nb)@.all == old(nb)@.all
            &&& session_in(final(nb)@, old(nb)@.current_end as int) == session_ahead(old(nb)@)
        },
{
    let ghost begin = old(nb)@.current_end as int;
    let ghost ahead = session_ahead(old(nb)@);
    let mut key: Option<(u32, u32)> = None;
    proof {
        nb.lemma_ordered();
    }
    loop
        invariant
            nb.inv(),
            begin == old(nb)@.current_end,
            nb@.current_end >= old(nb)@.current_end,
            nb@.all.len() >= old(nb)@.all.len(),
            nb@.all.subrange(0, begin) == old(nb)@.all.subrange(0, begin),
            *is_closed == *old(is_closed),
            spec_await_session(nb@.all, begin, nb@.current_end as int, None) == (SessionRecord {
                key,
                end: nb@.current_end as int,
                result: None,
            }),
            ahead == session_ahead(old(nb)@),
            ahead.result is Some ==> {
                &&& *stream == *old(stream)
                &&& nb@.all == old(nb)@.all
                &&& nb@.following_end == old(nb)@.following_end
                &&& spec_await_session(
                    nb@.all,
                    nb@.current_end as int,
                    nb@.following_end as int,
                    key,
                ) == ahead
            },
        decreases usize::MAX - nb@.current_end,
    {
        proof {
            nb.lemma_ordered();
            lemma_buffered(nb@);
        }
        let ghost before = nb@;
        let ghost cur = nb@.current_end as int;
        let fetched = fetch_next_msg_from_stream(is_closed, nb, stream);
        proof {
            nb.lemma_ordered();
            if nb@.current_end == cur {
                assert(before.all.subrange(0, cur) =~= before.all.subrange(
                    0,
                    before.following_end as int,
                ).subrange(0, cur));
                assert(nb@.all.subrange(0, cur) =~= nb@.all.subrange(
                    0,
                    before.following_end as int,
                ).subrange(0, cur));
                lemma_await_session_stable(before.all, nb@.all, begin, cur, None);
            } else {
                lemma_await_session_step(before, nb@, begin, None);
                lemma_message_in_scope(before, nb@);
            }
            assert(nb@.all.subrange(0, begin) =~= nb@.all.subrange(0, cur).subrange(0, begin));
            assert(before.all.subrange(0, begin) =~= before.all.subrange(0, cur).subrange(
                0,
                begin,
            ));
        }
        let msg = match fetched {
            Ok(msg) => msg,
            Err(e) => {
                return Err(e);
            },
        };
        let (held, result) = on_session_message(key, msg);
        key = held;
        match result {
            None => {},
            Some(None) => {
                return Ok(key);
            },
            Some(Some(e)) => {
                *is_closed = true;
                return Err(e);
            },
        }
    }
}

/// If the request to run `cmd` with `params` can be written, given the statements `stmts` that
/// are held prepared: the request to run it can be, and so can the request to prepare it,
/// unless it is held prepared.
pub open spec fn request_fits(
    stmts: Seq<StatementView>,
    cmd: Seq<u8>,
    params: Seq<Option<&[u8]>>,
) -> bool {
    &&& run_fits(spec_fnv1a64(cmd), params)
    &&& has_id(stmts, spec_fnv1a64(cmd)) || prepare_fits(cmd)
}

/// If `after` are the statements `before` of a cache of `capacity` statements after the
/// statement `id` was made sure of: one that was held is the most recently used one now and
/// nothing else changed; one that was not held was taken in as the most recently used one,
/// in place of the least recently used one if the cache was full.
pub open spec fn is_held_after(
    before: Seq<StatementView>,
    after: Seq<StatementView>,
    capacity: nat,
    id: u64,
) -> bool {
    if has_id(before, id) {
        after == touched(before, id)
    } else {
        &&& after.len() > 0
        &&& after.last().id == id
        &&& after.drop_last() == with_room(before, capacity)
    }
}

/// If `r` is what a run comes back with whose messages decided `result`: the row count or the
/// failure that they decided, or the failure that kept them from being read to the end.
pub open spec fn is_run_result(r: Result<u64, Error>, result: Option<Result<u64, Error>>) -> bool {
    match r {
        Ok(n) => result == Some(Ok::<u64, Error>(n)),
        Err(e) => (is_fetch_failure(e) && result is None) || result == Some(Err::<u64, Error>(e)),
    }
}

/// If `r` is what the fetch of one row comes back with whose messages decided `read`: the row
/// if one was kept, [`Error::NoRecord`] if the run ended well without a row, and else the
/// failure of the run.
pub open spec fn is_fetch_result(r: Result<(), Error>, read: RowsRecord) -> bool {
    match r {
        Ok(()) => read.result matches Some(Ok(_)) && read.rb.len() == 1,
        Err(Error::NoRecord) => read.result matches Some(Ok(_)) && read.rb.len() == 0,
        Err(e) => (is_fetch_failure(e) && read.result is None) || read.result == Some(
            Err::<u64, Error>(e),
        ),
    }
}

#[verifier::rlimit(40)]
/// Makes sure that the backend holds `cmd` prepared, binds `params`, runs the statement and
/// keeps the rows that come back as `mode` asks. Tells where in the buffer the answer to the
/// run begins, and the row count of the run.
///
/// A request that can not be written is refused before anything is sent or changed. What
/// comes back is what the messages of the answer decide, as [`answer_in`] tells.
pub fn write_send_await_rows_with_stmt<S>(
    is_closed: &mut bool,
    nb: &mut PartitionedFilledBuffer,
    rb: &mut Vec<usize>,
    vb: &mut Vec<(bool, Range<usize>)>,
    stream: &mut S,
    stmts: &mut Statements,
    out: &mut Vec<u8>,
    cmd: &[u8],
    params: &[Option<&[u8]>],
    mode: RowsMode,
) -> (r: (usize, Result<u64, Error>)) where S: Stream
    requires
        old(nb).inv(),
        old(stmts).inv(),
        old(rb)@.len() == 0,
        old(vb)@.len() == 0,
    ensures
        final(nb).inv(),
        final(stmts).inv(),
        final(stmts).spec_capacity() == old(stmts).spec_capacity(),
        old(nb)@.current_end <= r.0 <= final(nb)@.current_end,
        final(nb)@.len >= old(nb)@.len,
        offsets_fit(final(vb)@, final(nb)@.len as int),
        rows_fit(final(rb)@, final(vb)@.len() as int),
        mode == RowsMode::Last ==> final(rb)@.len() <= 1,
        ({
            let read = answer_in(final(nb)@, r.0 as int, mode, Seq::empty(), Seq::empty());
            &&& read.end == final(nb)@.current_end
            &&& final(rb)@ == read.rb
            &&& final(vb)@ == read.vb
        }),
        (r.1 matches Err(Error::CapacityOverflow)) <==> !request_fits(
            old(stmts)@,
            cmd@,
            params@,
        ),
        !request_fits(old(stmts)@, cmd@, params@) ==> {
            &&& *final(stream) == *old(stream)
            &&& final(nb)@ == old(nb)@
            &&& final(stmts)@ == old(stmts)@
            &&& *final(is_closed) == *old(is_closed)
        },
        request_fits(old(stmts)@, cmd@, params@) ==> ({
            let id = spec_fnv1a64(cmd@);
            let read = answer_in(final(nb)@, r.0 as int, mode, Seq::empty(), Seq::empty());
            &&& final(out)@ == if is_held_after(
                old(stmts)@,
                final(stmts)@,
                old(stmts).spec_capacity(),
                id,
            ) {
                spec_run_request(id, params@)
            } else {
                spec_prepare_request(cmd@)
            }
            &&& match r.1 {
                Ok(n) => {
                    &&& read.result == Some(Ok::<u64, Error>(n))
                    &&& is_held_after(old(stmts)@, final(stmts)@, old(stmts).spec_capacity(), id)
                    &&& *final(is_closed) == *old(is_closed)
                },
                Err(e) => {
                    &&& is_answer_failure(e)
                    &&& (e matches Error::DatabaseError { is_fatal: false, .. }) || *final(is_closed)
                    &&& if is_held_after(
                        old(stmts)@,
                        final(stmts)@,
                        old(stmts).spec_capacity(),
                        id,
                    ) {
                        is_run_result(r.1, read.result)
                    } else {
                        &&& read.result is None
                        &&& !has_id(final(stmts)@, id)
                        &&& final(stmts)@ == old(stmts)@ || final(stmts)@
                            == old(stmts)@.drop_first()
                    }
                },
            }
        }),
{
    proof {
        nb.lemma_ordered();
        assert(rb@ =~= Seq::<usize>::empty());
        assert(vb@ =~= Seq::<(bool, Range<usize>)>::empty());
    }
    let id: u64 = fnv1a64(cmd);
    let mut run_request: Vec<u8> = Vec::new();
    match write_run_request(&mut run_request, id, params) {
        Ok(()) => {},
        Err(e) => {
            return (nb.current_end_idx(), Err(e));
        },
    }
    let (_, prepared) = write_send_await_stmt_prot(is_closed, nb, stream, stmts, out, cmd);
    proof {
        nb.lemma_ordered();
        if has_id(old(stmts)@, id) {
            lemma_touched_holds(old(stmts)@, id);
        } else if prepared is Ok {
            lemma_pushed_is_held(old(stmts)@, old(stmts).spec_capacity(), stmts@.last());
            assert(stmts@ =~= with_room(old(stmts)@, old(stmts).spec_capacity()).push(
                stmts@.last(),
            ));
        }
    }
    let begin: usize = nb.current_end_idx();
    match prepared {
        Ok(_) => {},
        Err(e) => {
            return (begin, Err(e));
        },
    }
    *out = run_request;
    match send(is_closed, stream, out.as_slice()) {
        Ok(()) => {},
        Err(e) => {
            return (begin, Err(e));
        },
    }
    let rows = await_rows(is_closed, nb, rb, vb, stream, mode);
    (begin, rows)
}

/// A statement that was taken in behind the statements that were left room for is held
/// afterwards as [`is_held_after`] tells.
pub proof fn lemma_pushed_is_held(before: Seq<StatementView>, capacity: nat, stmt: StatementView)
    requires
        !has_id(before, stmt.id),
    ensures
        is_held_after(before, with_room(before, capacity).push(stmt), capacity, stmt.id),
        has_id(with_room(before, capacity).push(stmt), stmt.id),
{
    let after = with_room(before, capacity).push(stmt);
    assert(after.drop_last() =~= with_room(before, capacity));
    assert(after[after.len() - 1].id == stmt.id);
}

/// Marking a statement as the most recently used one keeps the statements: every statement
/// that was held is held afterwards and no other, and the statements in front of it and
/// behind it keep their order.
pub proof fn lemma_touched_keeps_statements(stmts: Seq<StatementView>, id: u64)
    requires
        has_id(stmts, id),
    ensures
        touched(stmts, id).len() == stmts.len(),
        forall|stmt: StatementView| stmts.contains(stmt) <==> touched(stmts, id).contains(stmt),
        forall|i: int| 0 <= i < position_of(stmts, id) ==> touched(stmts, id)[i] == stmts[i],
        forall|i: int|
            position_of(stmts, id) < i < stmts.len() ==> touched(stmts, id)[i - 1] == stmts[i],
        touched(stmts, id).last() == stmts[position_of(stmts, id)],
{
    let at = position_of(stmts, id);
    let after = touched(stmts, id);
    assert forall|stmt: StatementView| stmts.contains(stmt) implies after.contains(stmt) by {
        let i = choose|i: int| 0 <= i < stmts.len() && stmts[i] == stmt;
        if i < at {
            assert(after[i] == stmt);
        } else if i == at {
            assert(after[after.len() - 1] == stmt);
        } else {
            assert(after[i - 1] == stmt);
        }
    }
    assert forall|stmt: StatementView| after.contains(stmt) implies stmts.contains(stmt) by {
        let i = choose|i: int| 0 <= i < after.len() && after[i] == stmt;
        if i < at {
            assert(stmts[i] == stmt);
        } else if i == after.len() - 1 {
            assert(stmts[at] == stmt);
        } else {
            assert(stmts[i + 1] == stmt);
        }
    }
}

/// A statement that is held is still held once it was marked as the most recently used one.
pub proof fn lemma_touched_holds(stmts: Seq<StatementView>, id: u64)
    requires
        has_id(stmts, id),
    ensures
        has_id(touched(stmts, id), id),
        touched(stmts, id).len() == stmts.len(),
        touched(stmts, id).last().id == id,
{
    let after = touched(stmts, id);
    assert(after[after.len() - 1].id == id);
}

/// Binds `params` to the statement `id`, which the backend holds prepared, runs it and keeps
/// the row that comes back: the last one if there are several, and [`Error::NoRecord`] if there
/// is none. The answer begins where the message in scope ended.
pub fn write_send_await_fetch_with_stmt_wo_prot<S>(
    is_closed: &mut bool,
    nb: &mut PartitionedFilledBuffer,
    rb: &mut Vec<usize>,
    vb: &mut Vec<(bool, Range<usize>)>,
    stream: &mut S,
    out: &mut Vec<u8>,
    id: u64,
    params: &[Option<&[u8]>],
) -> (r: Result<(), Error>) where S: Stream
    requires
        old(nb).inv(),
        old(rb)@.len() == 0,
        old(vb)@.len() == 0,
    ensures
        final(nb).inv(),
        final(nb)@.current_end >= old(nb)@.current_end,
        offsets_fit(final(vb)@, final(nb)@.len as int),
        rows_fit(final(rb)@, final(vb)@.len() as int),
        ({
            let read = answer_in(
                final(nb)@,
                old(nb)@.current_end as int,
                RowsMode::Last,
                Seq::empty(),
                Seq::empty(),
            );
            &&& read.end == final(nb)@.current_end
            &&& final(rb)@ == read.rb
            &&& final(vb)@ == read.vb
            &&& run_fits(id, params@) ==> is_fetch_result(r, read)
        }),
        (r matches Err(Error::CapacityOverflow)) <==> !run_fits(id, params@),
        !run_fits(id, params@) ==> {
            &&& *final(stream) == *old(stream)
            &&& final(nb)@ == old(nb)@
            &&& *final(is_closed) == *old(is_closed)
        },
        run_fits(id, params@) ==> final(out)@ == spec_run_request(id, params@),
        match r {
            Ok(()) => *final(is_closed) == *old(is_closed),
            Err(e) => e is CapacityOverflow || e is NoRecord || (e matches Error::DatabaseError {
                is_fatal: false,
                ..
            }) || *final(is_closed),
        },
{
    proof {
        nb.lemma_ordered();
        assert(rb@ =~= Seq::<usize>::empty());
        assert(vb@ =~= Seq::<(bool, Range<usize>)>::empty());
    }
    match write_send_await_stmt_initial(is_closed, stream, out, id, params) {
        Ok(()) => {},
        Err(e) => {
            return Err(e);
        },
    }
    match await_rows(is_closed, nb, rb, vb, stream, RowsMode::Last) {
        Ok(_) => {},
        Err(e) => {
            return Err(e);
        },
    }
    if rb.len() == 0 {
        return Err(Error::NoRecord);
    }
    Ok(())
}

/// Makes sure that the backend holds `cmd` prepared, binds `params`, runs the statement and
/// keeps the row that comes back: the last one if there are several, and [`Error::NoRecord`]
/// if there is none. Tells where in the buffer the answer to the run begins.
pub fn write_send_await_fetch_with_stmt<S>(
    is_closed: &mut bool,
    nb: &mut PartitionedFilledBuffer,
    rb: &mut Vec<usize>,
    vb: &mut Vec<(bool, Range<usize>)>,
    stream: &mut S,
    stmts: &mut Statements,
    out: &mut Vec<u8>,
    cmd: &[u8],
    params: &[Option<&[u8]>],
) -> (r: (usize, Result<(), Error>)) where S: Stream
    requires
        old(nb).inv(),
        old(stmts).inv(),
        old(rb)@.len() == 0,
        old(vb)@.len() == 0,
    ensures
        final(nb).inv(),
        final(stmts).inv(),
        final(stmts).spec_capacity() == old(stmts).spec_capacity(),
        old(nb)@.current_end <= r.0 <= final(nb)@.current_end,
        offsets_fit(final(vb)@, final(nb)@.len as int),
        rows_fit(final(rb)@, final(vb)@.len() as int),
        ({
            let read = answer_in(
                final(nb)@,
                r.0 as int,
                RowsMode::Last,
                Seq::empty(),
                Seq::empty(),
            );
            &&& read.end == final(nb)@.current_end
            &&& final(rb)@ == read.rb
            &&& final(vb)@ == read.vb
        }),
        (r.1 matches Err(Error::CapacityOverflow)) <==> !request_fits(
            old(stmts)@,
            cmd@,
            params@,
        ),
        !request_fits(old(stmts)@, cmd@, params@) ==> {
            &&& *final(stream) == *old(stream)
            &&& final(nb)@ == old(nb)@
            &&& final(stmts)@ == old(stmts)@
            &&& *final(is_closed) == *old(is_closed)
        },
        request_fits(old(stmts)@, cmd@, params@) ==> ({
            let id = spec_fnv1a64(cmd@);
            let read = answer_in(
                final(nb)@,
                r.0 as int,
                RowsMode::Last,
                Seq::empty(),
                Seq::empty(),
            );
            let held = is_held_after(old(stmts)@, final(stmts)@, old(stmts).spec_capacity(), id);
            &&& final(out)@ == if held {
                spec_run_request(id, params@)
            } else {
                spec_prepare_request(cmd@)
            }
            &&& r.1 is Ok ==> held
            &&& r.1 matches Err(Error::NoRecord) ==> held && *final(is_closed) == *old(is_closed)
            &&& r.1 matches Err(e) ==> e is NoRecord || is_answer_failure(e)
            &&& held ==> is_fetch_result(r.1, read)
            &&& !held ==> {
                &&& read.result is None
                &&& !has_id(final(stmts)@, id)
                &&& final(stmts)@ == old(stmts)@ || final(stmts)@ == old(stmts)@.drop_first()
                &&& r.1 matches Err(e) && is_answer_failure(e)
            }
        }),
        match r.1 {
            Ok(()) => *final(is_closed) == *old(is_closed),
            Err(e) => e is CapacityOverflow || e is NoRecord || (e matches Error::DatabaseError {
                is_fatal: false,
                ..
            }) || *final(is_closed),
        },
{
    let (begin, rows) = write_send_await_rows_with_stmt(
        is_closed,
        nb,
        rb,
        vb,
        stream,
        stmts,
        out,
        cmd,
        params,
        RowsMode::Last,
    );
    match rows {
        Ok(_) => {},
        Err(e) => {
            return (begin, Err(e));
        },
    }
    if rb.len() == 0 {
        return (begin, Err(Error::NoRecord));
    }
    (begin, Ok(()))
}

/// Reads the byte that the server answers to a request for encryption with: only the answer
/// that agrees lets the connection go on.
pub fn encryption_answer(answer: u8) -> (r: Result<(), Error>)
    ensures
        r is Ok <==> answer == ENCRYPTION_ACCEPTED,
        r matches Err(e) ==> e == Error::ServerDoesNotSupportEncryption,
{
    if answer != ENCRYPTION_ACCEPTED {
        return Err(Error::ServerDoesNotSupportEncryption);
    }
    Ok(())
}

/// One connection to a backend: the stream, the buffers and whether the connection can still
/// be used.
#[derive(Debug)]
pub struct Executor<S> {
    /// Where in the buffer the answer to the last request begins.
    answer_begin: usize,
    backend_key: Option<(u32, u32)>,
    eb: ExecutorBuffer,
    is_closed: bool,
    is_in_transaction: bool,
    stream: S,
}

impl<S> Executor<S> where S: Stream {
    /// The buffers.
    pub closed spec fn spec_eb(&self) -> ExecutorBuffer {
        self.eb
    }

    /// If the connection was given up.
    pub closed spec fn spec_is_closed(&self) -> bool {
        self.is_closed
    }

    /// If a transaction is open.
    pub closed spec fn spec_is_in_transaction(&self) -> bool {
        self.is_in_transaction
    }

    /// The stream.
    pub closed spec fn spec_stream(&self) -> S {
        self.stream
    }

    /// The buffers are in order.
    pub open spec fn inv(&self) -> bool {
        self.spec_eb().inv()
    }

    /// An executor over a connection that is set up already.
    pub fn from_parts(eb: ExecutorBuffer, stream: S) -> (r: Self)
        requires
            eb.inv(),
        ensures
            r.inv(),
            r.spec_eb() == eb,
            r.spec_stream() == stream,
            !r.spec_is_closed(),
            !r.spec_is_in_transaction(),
    {
        Self {
            answer_begin: 0,
            backend_key: None,
            eb,
            is_closed: false,
            is_in_transaction: false,
            stream,
        }
    }

    /// Connects with an unencrypted stream: the session is opened for the user and the
    /// database of `config`, the server is shown that the password is known, and what the
    /// server tells about itself is passed over until it waits for the first command.
    pub fn connect<RNG>(config: &Config<'_>, eb: ExecutorBuffer, rng: &mut RNG, stream: S) -> (r:
        Result<Self, Error>) where RNG: Rng
        requires
            eb.stmts.inv(),
        ensures
            r matches Ok(this) ==> this.inv() && !this.spec_is_closed()
                && !this.spec_is_in_transaction() && this.spec_eb().stmts@.len() == 0
                && this.spec_started(),
            (r matches Err(Error::CapacityOverflow)) <==> !protocol::initial_conn_fits(
                config.user@,
                config.db@,
                config.app_name@,
            ),
            r matches Err(e) ==> e == Error::CapacityOverflow || is_session_failure(e),
    {
        let mut eb = eb;
        eb.clear();
        Self::do_connect(config, eb, rng, stream, None)
    }

    /// Initially connects with an unencrypted stream that is upgraded to an encrypted stream
    /// by `cb` once the server has agreed to encryption. A server that does not agree is
    /// given up with [`Error::ServerDoesNotSupportEncryption`].
    pub fn connect_encrypted<F, IS, RNG>(
        config: &Config<'_>,
        eb: ExecutorBuffer,
        initial_stream: IS,
        rng: &mut RNG,
        cb: F,
    ) -> (r: Result<Self, Error>) where
        F: FnOnce(IS) -> Result<S, Error>,
        IS: Stream,
        RNG: Rng,
        S: TlsStream,

        requires
            eb.stmts.inv(),
            forall|upgradable: IS| cb.requires((upgradable,)),
        ensures
            r matches Ok(this) ==> this.inv() && !this.spec_is_closed()
                && !this.spec_is_in_transaction() && this.spec_eb().stmts@.len() == 0
                && protocol::initial_conn_fits(config.user@, config.db@, config.app_name@)
                && this.spec_started(),
            r matches Err(e) ==> {
                ||| e == Error::ServerDoesNotSupportEncryption
                ||| is_session_failure(e)
                ||| e == Error::CapacityOverflow && !protocol::initial_conn_fits(
                    config.user@,
                    config.db@,
                    config.app_name@,
                )
                ||| exists|upgradable: IS| #[trigger]
                    cb.ensures((upgradable,), Err::<S, Error>(e))
            },
    {
        let mut eb = eb;
        let mut initial_stream = initial_stream;
        eb.clear();
        protocol::encrypted_conn(&mut eb.params_buffer);
        match initial_stream.write_all(eb.params_buffer.as_slice()) {
            Ok(()) => {},
            Err(kind) => {
                return Err(Error::Io(kind));
            },
        }
        let mut answer: [u8; 1] = [0u8];
        match initial_stream.read(&mut answer) {
            Ok(_) => {},
            Err(kind) => {
                return Err(Error::Io(kind));
            },
        }
        match encryption_answer(answer[0]) {
            Ok(()) => {},
            Err(e) => {
                return Err(e);
            },
        }
        let ghost upgraded = initial_stream;
        let stream = match cb(initial_stream) {
            Ok(stream) => stream,
            Err(e) => {
                assert(cb.ensures((upgraded,), Err::<S, Error>(e)));
                return Err(e);
            },
        };
        match stream.tls_server_end_point() {
            Some(end_point) => Self::do_connect(config, eb, rng, stream, Some(end_point.as_slice())),
            None => Self::do_connect(config, eb, rng, stream, None),
        }
    }

    /// Opens the session over a stream that is ready for it.
    fn do_connect<RNG>(
        config: &Config<'_>,
        eb: ExecutorBuffer,
        rng: &mut RNG,
        stream: S,
        tls_server_end_point: Option<&[u8]>,
    ) -> (r: Result<Self, Error>) where RNG: Rng
        requires
            eb.inv(),
        ensures
            r matches Ok(this) ==> this.inv() && !this.spec_is_closed()
                && !this.spec_is_in_transaction() && this.spec_eb().stmts@ == eb.stmts@
                && this.spec_started(),
            (r matches Err(Error::CapacityOverflow)) <==> !protocol::initial_conn_fits(
                config.user@,
                config.db@,
                config.app_name@,
            ),
            r matches Err(e) ==> e == Error::CapacityOverflow || is_session_failure(e),
    {
        let mut this = Self {
            answer_begin: 0,
            backend_key: None,
            eb,
            is_closed: false,
            is_in_transaction: false,
            stream,
        };
        match this.send_initial_conn_msg(config) {
            Ok(()) => {},
            Err(e) => {
                return Err(e);
            },
        }
        match manage_authentication(
            &mut this.is_closed,
            &mut this.eb.nb,
            &mut this.stream,
            &mut this.eb.params_buffer,
            config,
            rng,
            tls_server_end_point,
        ) {
            Ok(()) => {},
            Err(e) => {
                return Err(e);
            },
        }
        proof {
            this.eb.nb.lemma_ordered();
        }
        let ghost authenticated = this.eb.nb@;
        this.answer_begin = this.eb.nb.current_end_idx();
        match read_after_authentication_data(
            &mut this.is_closed,
            &mut this.eb.nb,
            &mut this.stream,
        ) {
            Ok(key) => {
                this.backend_key = key;
            },
            Err(e) => {
                return Err(e);
            },
        }
        proof {
            let begin = authenticated.antecedent_end as int;
            let end = authenticated.current_end as int;
            assert(this.eb.nb@.all.subrange(begin, end) =~= this.eb.nb@.all.subrange(
                0,
                end,
            ).subrange(begin, end));
            assert(authenticated.all.subrange(begin, end) =~= authenticated.all.subrange(
                0,
                end,
            ).subrange(begin, end));
            assert(is_success_at(this.eb.nb@.all, begin, end));
        }
        Ok(this)
    }

    /// Sends the start-up message.
    fn send_initial_conn_msg(&mut self, config: &Config<'_>) -> (r: Result<(), Error>)
        ensures
            final(self).eb.nb == old(self).eb.nb,
            final(self).eb.stmts == old(self).eb.stmts,
            final(self).is_in_transaction == old(self).is_in_transaction,
            r is Ok ==> final(self).is_closed == old(self).is_closed,
            (r matches Err(Error::CapacityOverflow)) <==> !protocol::initial_conn_fits(
                config.user@,
                config.db@,
                config.app_name@,
            ),
            r matches Err(e) ==> e == Error::CapacityOverflow || e is Io,
    {
        self.eb.params_buffer.clear();
        match protocol::initial_conn_msg(&mut self.eb.params_buffer, config) {
            Ok(()) => {},
            Err(e) => {
                return Err(e);
            },
        }
        send(&mut self.is_closed, &mut self.stream, self.eb.params_buffer.as_slice())
    }

    /// The process and the secret that the server handed out for cancelling requests, if it
    /// handed them out.
    pub fn backend_key(&self) -> (r: Option<(u32, u32)>)
        ensures
            r == self.spec_backend_key(),
    {
        self.backend_key
    }

    /// The process and the secret for cancelling requests.
    pub closed spec fn spec_backend_key(&self) -> Option<(u32, u32)> {
        self.backend_key
    }

    /// Gives the stream and the buffers back.
    pub fn into_parts(self) -> (r: (ExecutorBuffer, S))
        ensures
            r.0 == self.spec_eb(),
            r.1 == self.spec_stream(),
    {
        (self.eb, self.stream)
    }

    /// Mutable buffer reference.
    pub fn eb_mut(&mut self) -> (r: &mut ExecutorBuffer)
        ensures
            *r == old(self).spec_eb(),
            final(self).spec_eb() == *final(r),
            final(self).spec_is_closed() == old(self).spec_is_closed(),
            final(self).spec_is_in_transaction() == old(self).spec_is_in_transaction(),
            final(self).spec_stream() == old(self).spec_stream(),
    {
        &mut self.eb
    }

    /// The stream, for looking at it.
    pub fn stream(&self) -> (r: &S)
        ensures
            *r == self.spec_stream(),
    {
        &self.stream
    }

    /// If the connection was given up. Once it was, every operation answers with
    /// [`Error::ClosedConnection`].
    pub fn is_closed(&self) -> (r: bool)
        ensures
            r == self.spec_is_closed(),
    {
        self.is_closed
    }

    /// If a transaction is open.
    pub fn is_in_transaction(&self) -> (r: bool)
        ensures
            r == self.spec_is_in_transaction(),
    {
        self.is_in_transaction
    }

    /// Runs `cmd` as a simple query and tells the row count of each of its commands. A query
    /// that is too long to be sent is refused before anything is sent.
    pub fn execute(&mut self, cmd: &str) -> (r: Result<Vec<u64>, Error>)
        requires
            old(self).inv(),
        ensures
            final(self).inv(),
            final(self).spec_eb().stmts@ == old(self).spec_eb().stmts@,
            final(self).spec_is_in_transaction() == old(self).spec_is_in_transaction(),
            old(self).spec_is_closed() ==> (r matches Err(Error::ClosedConnection)) && *final(self)
                == *old(self),
            (r matches Err(Error::ClosedConnection)) <==> old(self).spec_is_closed(),
            (r matches Err(Error::CapacityOverflow)) <==> !old(self).spec_is_closed()
                && cmd.spec_bytes().len() + 5 > protocol::MAX_MESSAGE_LEN,
            (r matches Err(Error::CapacityOverflow)) ==> final(self).spec_stream() == old(self).spec_stream() && !final(self).spec_is_closed(),
            r is Ok ==> !final(self).spec_is_closed() && final(self).spec_eb().params_buffer@
                == protocol::spec_query(cmd.spec_bytes()),
            r matches Err(e) ==> e is ClosedConnection || e is CapacityOverflow
                || is_answer_failure(e),
            r matches Err(e) ==> (e matches Error::DatabaseError { is_fatal: false, .. })
                || e is CapacityOverflow || final(self).spec_is_closed(),
            !old(self).spec_is_closed() && cmd.spec_bytes().len() + 5 <= protocol::MAX_MESSAGE_LEN
                ==> {
                &&& final(self).spec_eb().params_buffer@ == protocol::spec_query(cmd.spec_bytes())
                &&& final(self).spec_simple_answer().end == final(self).spec_eb().nb@.current_end
                &&& is_ready_result(r, final(self).spec_simple_answer())
            },
    {
        if self.is_closed {
            return Err(Error::ClosedConnection);
        }
        ExecutorBuffer::clear_cmd_buffers(&mut self.eb.nb, &mut self.eb.rb, &mut self.eb.vb);
        self.eb.params_buffer.clear();
        match protocol::query(&mut self.eb.params_buffer, cmd.as_bytes()) {
            Ok(()) => {},
            Err(e) => {
                return Err(e);
            },
        }
        proof {
            self.eb.nb.lemma_ordered();
        }
        self.answer_begin = self.eb.nb.current_end_idx();
        match send(&mut self.is_closed, &mut self.stream, self.eb.params_buffer.as_slice()) {
            Ok(()) => {},
            Err(e) => {
                return Err(e);
            },
        }
        await_ready(&mut self.is_closed, &mut self.eb.nb, &mut self.stream)
    }

    /// If the session has started as the messages tell that the server sent: the message in
    /// front of the answer tells that the client is authenticated, the messages of the answer
    /// end with the server waiting for the first command, and the key for cancelling requests
    /// is the one that they gave last, if they gave one.
    pub open spec fn spec_started(&self) -> bool {
        &&& exists|begin: int| #[trigger]
            is_success_at(self.spec_eb().nb@.all, begin, self.spec_answer_begin())
        &&& session_in(self.spec_eb().nb@, self.spec_answer_begin()).result == Some(None::<Error>)
        &&& session_in(self.spec_eb().nb@, self.spec_answer_begin()).end
            == self.spec_eb().nb@.current_end
        &&& session_in(self.spec_eb().nb@, self.spec_answer_begin()).key == self.spec_backend_key()
    }

    /// What the messages decide that the last simple query left in the buffer.
    pub open spec fn spec_simple_answer(&self) -> ReadyRecord {
        ready_in(self.spec_eb().nb@, self.spec_answer_begin())
    }

    /// If a command that was sent as a simple query ended as `r` tells: without a failure
    /// only if the messages of the answer end the query without one, and else with the
    /// failure that the messages end it with, with the failure that kept them from being
    /// read, or because the command was too long to be sent.
    pub open spec fn spec_commanded(&self, r: Result<(), Error>) -> bool {
        match r {
            Ok(()) => self.spec_simple_answer().result == Some(None::<Error>),
            Err(e) => {
                ||| e is CapacityOverflow
                ||| is_fetch_failure(e) && self.spec_simple_answer().result is None
                ||| self.spec_simple_answer().result == Some(Some(e))
            },
        }
    }

    /// Makes sure that the backend holds `cmd` prepared and tells the identifier of the
    /// statement, which is the hash of `cmd`.
    ///
    /// Preparing what is held prepared already asks nothing of the stream and leaves the same
    /// statements held. A statement that is too long to be sent is refused before anything is
    /// sent. A cache that is full lets its least recently used statement go for the new one,
    /// and a preparation that fails takes nothing in.
    pub fn prepare(&mut self, cmd: &str) -> (r: Result<u64, Error>)
        requires
            old(self).inv(),
        ensures
            final(self).inv(),
            final(self).spec_eb().stmts.spec_capacity() == old(self).spec_eb().stmts.spec_capacity(),
            final(self).spec_is_in_transaction() == old(self).spec_is_in_transaction(),
            old(self).spec_is_closed() ==> (r matches Err(Error::ClosedConnection)) && *final(self)
                == *old(self),
            (r matches Err(Error::ClosedConnection)) <==> old(self).spec_is_closed(),
            (r matches Err(Error::CapacityOverflow)) <==> !old(self).spec_is_closed() && !has_id(
                old(self).spec_eb().stmts@,
                spec_fnv1a64(cmd.spec_bytes()),
            ) && !prepare_fits(cmd.spec_bytes()),
            (r matches Err(Error::CapacityOverflow)) ==> {
                &&& final(self).spec_stream() == old(self).spec_stream()
                &&& final(self).spec_eb().stmts@ == old(self).spec_eb().stmts@
                &&& !final(self).spec_is_closed()
            },
            !old(self).spec_is_closed() && has_id(
                old(self).spec_eb().stmts@,
                spec_fnv1a64(cmd.spec_bytes()),
            ) ==> {
                &&& r == Ok::<u64, Error>(spec_fnv1a64(cmd.spec_bytes()))
                &&& final(self).spec_stream() == old(self).spec_stream()
                &&& final(self).spec_eb().params_buffer@ == old(self).spec_eb().params_buffer@
            },
            match r {
                Ok(id) => {
                    &&& id == spec_fnv1a64(cmd.spec_bytes())
                    &&& is_held_after(
                        old(self).spec_eb().stmts@,
                        final(self).spec_eb().stmts@,
                        old(self).spec_eb().stmts.spec_capacity(),
                        id,
                    )
                    &&& !final(self).spec_is_closed()
                    &&& !has_id(old(self).spec_eb().stmts@, id) ==> {
                        &&& final(self).spec_eb().params_buffer@ == spec_prepare_request(
                            cmd.spec_bytes(),
                        )
                        &&& final(self).spec_prepare_answer().result == Some(None::<Error>)
                        &&& final(self).spec_prepare_answer().end == final(self).spec_eb().nb@.current_end
                        &&& final(self).spec_eb().stmts@.last() == (StatementView {
                            id,
                            columns: final(self).spec_prepare_answer().columns,
                            param_types: final(self).spec_prepare_answer().param_types,
                        })
                    }
                },
                Err(e) => {
                    &&& e is ClosedConnection || e is CapacityOverflow || is_answer_failure(e)
                    &&& (e matches Error::DatabaseError { is_fatal: false, .. })
                        || e is CapacityOverflow || final(self).spec_is_closed()
                    &&& !old(self).spec_is_closed() ==> {
                        &&& !has_id(final(self).spec_eb().stmts@, spec_fnv1a64(cmd.spec_bytes()))
                        &&& final(self).spec_eb().stmts@ == old(self).spec_eb().stmts@ || final(self).spec_eb().stmts@ == old(self).spec_eb().stmts@.drop_first()
                    }
                },
            },
            !old(self).spec_is_closed() && !has_id(
                old(self).spec_eb().stmts@,
                spec_fnv1a64(cmd.spec_bytes()),
            ) && prepare_fits(cmd.spec_bytes()) ==> {
                &&& final(self).spec_eb().params_buffer@ == spec_prepare_request(cmd.spec_bytes())
                &&& final(self).spec_prepare_answer().end == final(self).spec_eb().nb@.current_end
                &&& r matches Err(e) ==> if old(self).spec_eb().stmts@.len() >= old(self).spec_eb().stmts.spec_capacity() && final(self).spec_eb().stmts@.len() == old(self).spec_eb().stmts@.len() {
                    final(self).spec_prepare_answer().result is None
                } else {
                    ||| is_fetch_failure(e) && final(self).spec_prepare_answer().result is None
                    ||| final(self).spec_prepare_answer().result == Some(Some(e))
                }
            },
    {
        if self.is_closed {
            return Err(Error::ClosedConnection);
        }
        ExecutorBuffer::clear_cmd_buffers(&mut self.eb.nb, &mut self.eb.rb, &mut self.eb.vb);
        proof {
            if has_id(self.eb.stmts@, spec_fnv1a64(cmd.spec_bytes())) {
                lemma_touched_holds(self.eb.stmts@, spec_fnv1a64(cmd.spec_bytes()));
            }
        }
        let (begin, prepared) = write_send_await_stmt_prot(
            &mut self.is_closed,
            &mut self.eb.nb,
            &mut self.stream,
            &mut self.eb.stmts,
            &mut self.eb.params_buffer,
            cmd.as_bytes(),
        );
        self.answer_begin = begin;
        proof {
            if !has_id(old(self).eb.stmts@, spec_fnv1a64(cmd.spec_bytes())) && prepared is Ok {
                lemma_pushed_is_held(
                    old(self).eb.stmts@,
                    old(self).eb.stmts.spec_capacity(),
                    self.eb.stmts@.last(),
                );
                assert(self.eb.stmts@ =~= with_room(
                    old(self).eb.stmts@,
                    old(self).eb.stmts.spec_capacity(),
                ).push(self.eb.stmts@.last()));
            }
        }
        prepared
    }

    /// What the messages decide that the last preparation left in the buffer.
    pub open spec fn spec_prepare_answer(&self) -> PreparedRecord {
        prepared_in(self.spec_eb().nb@, self.spec_answer_begin())
    }

    /// Where in the buffer the answer to the last run begins.
    pub closed spec fn spec_answer_begin(&self) -> int {
        self.answer_begin as int
    }

    /// What the messages decide that the last run left in the buffer, if the rows are kept as
    /// `mode` asks.
    pub open spec fn spec_answer(&self, mode: RowsMode) -> RowsRecord {
        answer_in(self.spec_eb().nb@, self.spec_answer_begin(), mode, Seq::empty(), Seq::empty())
    }

    /// If `after` is `before` after `cmd` was run with `params` as a prepared statement, the
    /// rows kept as `mode` asks, and the run failed with `failure` or did not fail.
    ///
    /// On a connection that was given up nothing happens. A request that can not be written is
    /// refused before anything is sent. Else the rows that are held are the rows that the
    /// messages of the answer decide, and the run did not fail if and only if the statement is
    /// held prepared and the messages end with a row count.
    pub open spec fn spec_ran(
        before: Self,
        after: Self,
        cmd: Seq<u8>,
        params: Seq<Option<&[u8]>>,
        mode: RowsMode,
        failure: Option<Error>,
    ) -> bool {
        let id = spec_fnv1a64(cmd);
        let stmts = before.spec_eb().stmts;
        let read = after.spec_answer(mode);
        let held = is_held_after(stmts@, after.spec_eb().stmts@, stmts.spec_capacity(), id);
        if before.spec_is_closed() {
            failure == Some(Error::ClosedConnection) && after == before
        } else if !request_fits(stmts@, cmd, params) {
            &&& failure == Some(Error::CapacityOverflow)
            &&& after.spec_stream() == before.spec_stream()
            &&& after.spec_eb().stmts@ == stmts@
            &&& !after.spec_is_closed()
        } else {
            &&& read.end == after.spec_eb().nb@.current_end
            &&& after.spec_eb().rb@ == read.rb
            &&& after.spec_eb().vb@ == read.vb
            &&& after.spec_eb().params_buffer@ == if held {
                spec_run_request(id, params)
            } else {
                spec_prepare_request(cmd)
            }
            &&& match failure {
                None => {
                    &&& held
                    &&& read.result matches Some(Ok(_))
                    &&& !after.spec_is_closed()
                },
                Some(Error::NoRecord) => {
                    &&& held
                    &&& read.result matches Some(Ok(_))
                    &&& read.rb.len() == 0
                    &&& !after.spec_is_closed()
                },
                Some(e) => {
                    &&& is_answer_failure(e)
                    &&& (e matches Error::DatabaseError { is_fatal: false, .. })
                        || after.spec_is_closed()
                    &&& if held {
                        (is_fetch_failure(e) && read.result is None) || read.result == Some(
                            Err::<u64, Error>(e),
                        )
                    } else {
                        &&& read.result is None
                        &&& !has_id(after.spec_eb().stmts@, id)
                        &&& after.spec_eb().stmts@ == stmts@ || after.spec_eb().stmts@
                            == stmts@.drop_first()
                    }
                },
            }
        }
    }

    /// Runs `cmd` with `params` as a prepared statement and tells how many rows it touched:
    /// the row count of the command that the backend reported as ended last.
    pub fn execute_with_stmt(&mut self, cmd: &str, params: &[Option<&[u8]>]) -> (r: Result<
        u64,
        Error,
    >)
        requires
            old(self).inv(),
        ensures
            final(self).inv(),
            final(self).spec_eb().stmts.spec_capacity() == old(self).spec_eb().stmts.spec_capacity(),
            final(self).spec_is_in_transaction() == old(self).spec_is_in_transaction(),
            (r matches Err(Error::ClosedConnection)) <==> old(self).spec_is_closed(),
            (r matches Err(Error::CapacityOverflow)) <==> !old(self).spec_is_closed()
                && !request_fits(old(self).spec_eb().stmts@, cmd.spec_bytes(), params@),
            Self::spec_ran(
                *old(self),
                *final(self),
                cmd.spec_bytes(),
                params@,
                RowsMode::Ignore,
                match r {
                    Ok(_) => None,
                    Err(e) => Some(e),
                },
            ),
            !(r matches Err(Error::NoRecord)),
            r matches Ok(n) ==> final(self).spec_answer(RowsMode::Ignore).result == Some(
                Ok::<u64, Error>(n),
            ),
    {
        self.run_with_stmt(cmd, params, RowsMode::Ignore)
    }

    /// Runs `cmd` with `params` as a prepared statement and hands out the row that it yields:
    /// the last one if there are several, and [`Error::NoRecord`] if there is none.
    pub fn fetch_with_stmt(&mut self, cmd: &str, params: &[Option<&[u8]>]) -> (r: Result<
        Record<'_>,
        Error,
    >)
        requires
            old(self).inv(),
        ensures
            final(self).inv(),
            final(self).spec_eb().stmts.spec_capacity() == old(self).spec_eb().stmts.spec_capacity(),
            final(self).spec_is_in_transaction() == old(self).spec_is_in_transaction(),
            (r matches Err(Error::ClosedConnection)) <==> old(self).spec_is_closed(),
            (r matches Err(Error::CapacityOverflow)) <==> !old(self).spec_is_closed()
                && !request_fits(old(self).spec_eb().stmts@, cmd.spec_bytes(), params@),
            Self::spec_ran(
                *old(self),
                *final(self),
                cmd.spec_bytes(),
                params@,
                RowsMode::Last,
                match r {
                    Ok(_) => None,
                    Err(e) => Some(e),
                },
            ),
            r matches Ok(record) ==> {
                &&& record.inv()
                &&& final(self).spec_answer(RowsMode::Last).rb.len() == 1
                &&& record@ == values_of(
                    final(self).spec_eb().nb@.bytes(),
                    final(self).spec_answer(RowsMode::Last).vb,
                )
            },
    {
        if self.is_closed {
            return Err(Error::ClosedConnection);
        }
        ExecutorBuffer::clear_cmd_buffers(&mut self.eb.nb, &mut self.eb.rb, &mut self.eb.vb);
        let (begin, fetched) = write_send_await_fetch_with_stmt(
            &mut self.is_closed,
            &mut self.eb.nb,
            &mut self.eb.rb,
            &mut self.eb.vb,
            &mut self.stream,
            &mut self.eb.stmts,
            &mut self.eb.params_buffer,
            cmd.as_bytes(),
            params,
        );
        self.answer_begin = begin;
        match fetched {
            Ok(()) => {},
            Err(e) => {
                return Err(e);
            },
        }
        proof {
            self.eb.nb.lemma_ordered();
        }
        Ok(Record::new(self.eb.nb.buffer(), self.eb.vb.as_slice()))
    }

    /// Runs `cmd` with `params` as a prepared statement, calls `cb` with every row that it
    /// yields, in the order in which the rows arrived, and hands the rows out.
    ///
    /// The rows are handed to `cb` once the backend waits for the next command, so that a
    /// failure of `cb` leaves the connection usable; the first failure of `cb` is handed on
    /// and ends the calls.
    pub fn fetch_many_with_stmt<F>(&mut self, cmd: &str, params: &[Option<&[u8]>], cb: F) -> (r:
        Result<Records<'_>, Error>) where F: FnMut(&Record<'_>) -> Result<(), Error>
        requires
            old(self).inv(),
            forall|f: F, record: &Record<'_>| f.requires((record,)),
        ensures
            final(self).inv(),
            final(self).spec_eb().stmts.spec_capacity() == old(self).spec_eb().stmts.spec_capacity(),
            final(self).spec_is_in_transaction() == old(self).spec_is_in_transaction(),
            !old(self).spec_is_closed() && !request_fits(
                old(self).spec_eb().stmts@,
                cmd.spec_bytes(),
                params@,
            ) ==> r matches Err(Error::CapacityOverflow),
            ({
                let rows = rows_of(
                    final(self).spec_eb().nb@.bytes(),
                    final(self).spec_answer(RowsMode::All).rb,
                    final(self).spec_answer(RowsMode::All).vb,
                );
                match r {
                    Ok(records) => {
                        &&& Self::spec_ran(
                            *old(self),
                            *final(self),
                            cmd.spec_bytes(),
                            params@,
                            RowsMode::All,
                            None,
                        )
                        &&& records.inv()
                        &&& records@ == rows
                        &&& answered_all::<F>(rows, rows.len() as int)
                    },
                    Err(e) => {
                        ||| !(e is NoRecord) && Self::spec_ran(
                            *old(self),
                            *final(self),
                            cmd.spec_bytes(),
                            params@,
                            RowsMode::All,
                            Some(e),
                        )
                        ||| {
                            &&& Self::spec_ran(
                                *old(self),
                                *final(self),
                                cmd.spec_bytes(),
                                params@,
                                RowsMode::All,
                                None,
                            )
                            &&& exists|i: int|
                                0 <= i < rows.len() && answered::<F>(#[trigger] rows[i], Some(e))
                                    && answered_all::<F>(rows, i)
                        }
                    },
                }
            }),
    {
        match self.run_with_stmt(cmd, params, RowsMode::All) {
            Ok(_) => {},
            Err(e) => {
                return Err(e);
            },
        }
        proof {
            self.eb.nb.lemma_ordered();
        }
        let records = Records::new(
            self.eb.nb.buffer(),
            self.eb.rb.as_slice(),
            self.eb.vb.as_slice(),
        );
        match for_each_record(&records, cb) {
            Ok(()) => {},
            Err(e) => {
                return Err(e);
            },
        }
        Ok(records)
    }

    /// Tells the server that the session is over. Whatever becomes of the message, the
    /// connection is closed afterwards.
    pub fn terminate(&mut self) -> (r: Result<(), Error>)
        ensures
            final(self).spec_is_closed(),
            final(self).spec_eb().nb == old(self).spec_eb().nb,
            final(self).spec_eb().stmts == old(self).spec_eb().stmts,
            final(self).spec_is_in_transaction() == old(self).spec_is_in_transaction(),
            old(self).spec_is_closed() ==> (r matches Err(Error::ClosedConnection)) && *final(self)
                == *old(self),
            (r matches Err(Error::ClosedConnection)) <==> old(self).spec_is_closed(),
            !old(self).spec_is_closed() ==> final(self).spec_eb().params_buffer@
                == protocol::spec_terminate(),
    {
        if self.is_closed {
            return Err(Error::ClosedConnection);
        }
        self.eb.params_buffer.clear();
        protocol::terminate(&mut self.eb.params_buffer);
        let r = send(&mut self.is_closed, &mut self.stream, self.eb.params_buffer.as_slice());
        self.is_closed = true;
        r
    }

    /// Opens a transaction. A transaction that is open already is not opened again.
    pub fn transaction(&mut self) -> (r: Result<(), Error>)
        requires
            old(self).inv(),
        ensures
            final(self).inv(),
            old(self).spec_is_closed() ==> (r matches Err(Error::ClosedConnection)) && *final(self)
                == *old(self),
            (r matches Err(Error::ClosedConnection)) <==> old(self).spec_is_closed(),
            !old(self).spec_is_closed() && old(self).spec_is_in_transaction() ==> (r matches Err(Error::TransactionAlreadyOpen)) && *final(self) == *old(self),
            (r matches Err(Error::TransactionAlreadyOpen)) <==> !old(self).spec_is_closed() && old(self).spec_is_in_transaction(),
            r is Ok ==> final(self).spec_is_in_transaction() && !final(self).spec_is_closed(),
            r is Err ==> final(self).spec_is_in_transaction() == old(self).spec_is_in_transaction(),
            !old(self).spec_is_closed() && !old(self).spec_is_in_transaction()
                ==> final(self).spec_commanded(r),
    {
        if self.is_closed {
            return Err(Error::ClosedConnection);
        }
        if self.is_in_transaction {
            return Err(Error::TransactionAlreadyOpen);
        }
        match self.execute("BEGIN") {
            Ok(_) => {
                self.is_in_transaction = true;
                Ok(())
            },
            Err(e) => Err(e),
        }
    }

    /// Makes the changes of the open transaction last. Without an open transaction nothing
    /// is sent.
    pub fn commit(&mut self) -> (r: Result<(), Error>)
        requires
            old(self).inv(),
        ensures
            final(self).inv(),
            old(self).spec_is_closed() ==> (r matches Err(Error::ClosedConnection)) && *final(self)
                == *old(self),
            (r matches Err(Error::ClosedConnection)) <==> old(self).spec_is_closed(),
            !old(self).spec_is_closed() && !old(self).spec_is_in_transaction() ==> r is Ok
                && *final(self) == *old(self),
            r is Ok ==> !final(self).spec_is_in_transaction(),
            r is Err ==> final(self).spec_is_in_transaction() == old(self).spec_is_in_transaction(),
            !old(self).spec_is_closed() && old(self).spec_is_in_transaction()
                ==> final(self).spec_commanded(r),
    {
        self.end_transaction("COMMIT")
    }

    /// Undoes the changes of the open transaction. Without an open transaction nothing is
    /// sent.
    pub fn rollback(&mut self) -> (r: Result<(), Error>)
        requires
            old(self).inv(),
        ensures
            final(self).inv(),
            old(self).spec_is_closed() ==> (r matches Err(Error::ClosedConnection)) && *final(self)
                == *old(self),
            (r matches Err(Error::ClosedConnection)) <==> old(self).spec_is_closed(),
            !old(self).spec_is_closed() && !old(self).spec_is_in_transaction() ==> r is Ok
                && *final(self) == *old(self),
            r is Ok ==> !final(self).spec_is_in_transaction(),
            r is Err ==> final(self).spec_is_in_transaction() == old(self).spec_is_in_transaction(),
            !old(self).spec_is_closed() && old(self).spec_is_in_transaction()
                ==> final(self).spec_commanded(r),
    {
        self.end_transaction("ROLLBACK")
    }

    /// Ends the open transaction with `cmd`.
    fn end_transaction(&mut self, cmd: &str) -> (r: Result<(), Error>)
        requires
            old(self).inv(),
        ensures
            final(self).inv(),
            old(self).spec_is_closed() ==> (r matches Err(Error::ClosedConnection)) && *final(self)
                == *old(self),
            (r matches Err(Error::ClosedConnection)) <==> old(self).spec_is_closed(),
            !old(self).spec_is_closed() && !old(self).spec_is_in_transaction() ==> r is Ok
                && *final(self) == *old(self),
            r is Ok ==> !final(self).spec_is_in_transaction(),
            r is Err ==> final(self).spec_is_in_transaction() == old(self).spec_is_in_transaction(),
            !old(self).spec_is_closed() && old(self).spec_is_in_transaction()
                ==> final(self).spec_commanded(r),
    {
        if self.is_closed {
            return Err(Error::ClosedConnection);
        }
        if !self.is_in_transaction {
            return Ok(());
        }
        match self.execute(cmd) {
            Ok(_) => {
                self.is_in_transaction = false;
                Ok(())
            },
            Err(e) => Err(e),
        }
    }

    /// Prepares `cmd` unless it is held prepared, binds `params`, runs the statement and
    /// keeps the rows as `mode` asks.
    fn run_with_stmt(&mut self, cmd: &str, params: &[Option<&[u8]>], mode: RowsMode) -> (r: Result<
        u64,
        Error,
    >)
        requires
            old(self).inv(),
        ensures
            final(self).inv(),
            final(self).spec_eb().stmts.spec_capacity() == old(self).spec_eb().stmts.spec_capacity(),
            final(self).spec_is_in_transaction() == old(self).spec_is_in_transaction(),
            !old(self).spec_is_closed() ==> offsets_fit(
                final(self).eb.vb@,
                final(self).eb.nb@.len as int,
            ) && rows_fit(final(self).eb.rb@, final(self).eb.vb@.len() as int),
            (r matches Err(Error::ClosedConnection)) <==> old(self).spec_is_closed(),
            (r matches Err(Error::CapacityOverflow)) <==> !old(self).spec_is_closed()
                && !request_fits(old(self).spec_eb().stmts@, cmd.spec_bytes(), params@),
            Self::spec_ran(
                *old(self),
                *final(self),
                cmd.spec_bytes(),
                params@,
                mode,
                match r {
                    Ok(_) => None,
                    Err(e) => Some(e),
                },
            ),
            !(r matches Err(Error::NoRecord)),
            r matches Ok(n) ==> final(self).spec_answer(mode).result == Some(Ok::<u64, Error>(n)),
    {
        if self.is_closed {
            return Err(Error::ClosedConnection);
        }
        ExecutorBuffer::clear_cmd_buffers(&mut self.eb.nb, &mut self.eb.rb, &mut self.eb.vb);
        let (begin, rows) = write_send_await_rows_with_stmt(
            &mut self.is_closed,
            &mut self.eb.nb,
            &mut self.eb.rb,
            &mut self.eb.vb,
            &mut self.stream,
            &mut self.eb.stmts,
            &mut self.eb.params_buffer,
            cmd.as_bytes(),
            params,
            mode,
        );
        self.answer_begin = begin;
        rows
    }
}

} // verus!
