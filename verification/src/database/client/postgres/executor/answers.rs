//! What the messages that a call has read decide, told over the bytes that the call left in
//! the buffer.

use crate::database::client::postgres::executor::commons::{
    spec_on_session_message, spec_on_simple_message, FetchAction, FetchState, PrepareAction,
    PrepareState, SimpleAction,
};
use crate::database::client::postgres::executor::fetch::{has_advanced, is_buffered, HEADER_LEN};
use crate::database::client::postgres::message::{framed_len, spec_message_ty, Message};
use crate::database::client::postgres::record::spec_offsets;
use crate::database::client::postgres::statements::{spec_columns, spec_param_types, ColumnView};
use crate::error::Error;
use crate::misc::bytes::be_u32;
use crate::misc::partitioned_filled_buffer::PartitionedView;
use core::ops::Range;
use vstd::prelude::*;

verus! {

/// The number of bytes in front of the first value of a row: the tag, the length and the
/// number of values.
pub const VALUES_OFFSET: usize = 7;

/// What becomes of the rows that arrive.
#[derive(Debug, Clone, Copy, PartialEq, Eq, Structural)]
pub enum RowsMode {
    /// They are passed over.
    Ignore,
    /// Each row takes the place of the row before it.
    Last,
    /// All of them are kept.
    All,
}

/// The number of bytes that the message that begins at `at` announces for itself.
pub open spec fn message_len_at(all: Seq<u8>, at: int) -> int {
    1 + be_u32(all[at + 1], all[at + 2], all[at + 3], all[at + 4])
}

/// If a whole message begins at `at` and ends at `end` or in front of it.
pub open spec fn has_message_at(all: Seq<u8>, at: int, end: int) -> bool {
    &&& 0 <= at
    &&& at + HEADER_LEN <= end <= all.len()
    &&& HEADER_LEN <= message_len_at(all, at)
    &&& at + message_len_at(all, at) <= end
}

/// The message that begins at `at`.
pub open spec fn message_at(all: Seq<u8>, at: int) -> Seq<u8> {
    all.subrange(at, at + message_len_at(all, at))
}

/// Where the `n` values of the row that begins at `at` lie, if the row holds them all.
pub open spec fn row_offsets(all: Seq<u8>, at: int, n: u16) -> Option<Seq<(bool, Range<usize>)>> {
    spec_offsets(all.subrange(0, at + message_len_at(all, at)), at + VALUES_OFFSET, n as nat)
}

/// What is known once some messages were read.
pub struct RowsRecord {
    /// What is known about the statement that runs.
    pub state: FetchState,
    /// Where each row that is kept ends among the values that are kept.
    pub rb: Seq<usize>,
    /// Where each value that is kept lies, and if it is missing.
    pub vb: Seq<(bool, Range<usize>)>,
    /// Where the message that was read last ends.
    pub end: int,
    /// How the run ended, if it has ended.
    pub result: Option<Result<u64, Error>>,
}

/// What is known once the message that begins at `at` was read, given what was known in
/// front of it.
///
/// The message is read as [`spec_message_ty`] tells and acted on as
/// [`FetchState::spec_on_message`] tells. A row is kept as `mode` asks: not at all, in place
/// of what was kept, or behind it; a row that does not hold its values ends the run.
pub open spec fn spec_read_message(
    all: Seq<u8>,
    at: int,
    mode: RowsMode,
    state: FetchState,
    rb: Seq<usize>,
    vb: Seq<(bool, Range<usize>)>,
) -> RowsRecord {
    let msg = message_at(all, at);
    let end = at + message_len_at(all, at);
    match spec_message_ty(msg) {
        Err(e) => RowsRecord { state, rb, vb, end, result: Some(Err(e)) },
        Ok(ty) => {
            let (next, action) = state.spec_on_message(Message { tag: msg[0], ty });
            match action {
                FetchAction::Skip => RowsRecord { state: next, rb, vb, end, result: None },
                FetchAction::Finish(result) => RowsRecord {
                    state: next,
                    rb,
                    vb,
                    end,
                    result: Some(result),
                },
                FetchAction::Row(n) => match mode {
                    RowsMode::Ignore => RowsRecord { state: next, rb, vb, end, result: None },
                    RowsMode::Last => match row_offsets(all, at, n) {
                        Some(offsets) => RowsRecord {
                            state: next,
                            rb: seq![offsets.len() as usize],
                            vb: offsets,
                            end,
                            result: None,
                        },
                        None => RowsRecord {
                            state: next,
                            rb: Seq::empty(),
                            vb: Seq::empty(),
                            end,
                            result: Some(Err(Error::UnexpectedValueFromBytes)),
                        },
                    },
                    RowsMode::All => match row_offsets(all, at, n) {
                        Some(offsets) => RowsRecord {
                            state: next,
                            rb: rb.push((vb.len() + offsets.len()) as usize),
                            vb: vb + offsets,
                            end,
                            result: None,
                        },
                        None => RowsRecord {
                            state: next,
                            rb,
                            vb,
                            end,
                            result: Some(Err(Error::UnexpectedValueFromBytes)),
                        },
                    },
                },
            }
        },
    }
}

/// What is known once the messages that lie between `at` and `end` were read one after the
/// other, each whole and each as [`spec_read_message`] tells, given what was known in front
/// of them. The reading stops at the message that ends the run and in front of what is no
/// whole message.
pub open spec fn spec_await_rows(
    all: Seq<u8>,
    at: int,
    end: int,
    mode: RowsMode,
    state: FetchState,
    rb: Seq<usize>,
    vb: Seq<(bool, Range<usize>)>,
) -> RowsRecord
    decreases end - at,
{
    if !has_message_at(all, at, end) {
        RowsRecord { state, rb, vb, end: at, result: None }
    } else {
        let step = spec_read_message(all, at, mode, state, rb, vb);
        if step.result is Some {
            step
        } else {
            spec_await_rows(all, step.end, end, mode, step.state, step.rb, step.vb)
        }
    }
}

/// What is known of the messages in front of `end` does not depend on the bytes behind `end`.
pub proof fn lemma_await_rows_stable(
    all: Seq<u8>,
    other: Seq<u8>,
    at: int,
    end: int,
    mode: RowsMode,
    state: FetchState,
    rb: Seq<usize>,
    vb: Seq<(bool, Range<usize>)>,
)
    requires
        end <= all.len(),
        end <= other.len(),
        all.subrange(0, end) == other.subrange(0, end),
    ensures
        spec_await_rows(all, at, end, mode, state, rb, vb) == spec_await_rows(
            other,
            at,
            end,
            mode,
            state,
            rb,
            vb,
        ),
    decreases end - at,
{
    if 0 <= at && at + HEADER_LEN <= end {
        let front = all.subrange(0, end);
        let other_front = other.subrange(0, end);
        assert(all[at + 1] == front[at + 1] && other[at + 1] == other_front[at + 1]);
        assert(all[at + 2] == front[at + 2] && other[at + 2] == other_front[at + 2]);
        assert(all[at + 3] == front[at + 3] && other[at + 3] == other_front[at + 3]);
        assert(all[at + 4] == front[at + 4] && other[at + 4] == other_front[at + 4]);
        assert(message_len_at(all, at) == message_len_at(other, at));
        if has_message_at(all, at, end) {
            let next_at = at + message_len_at(all, at);
            assert(message_at(all, at) =~= front.subrange(at, next_at));
            assert(message_at(other, at) =~= other_front.subrange(at, next_at));
            assert(all.subrange(0, next_at) =~= front.subrange(0, next_at));
            assert(other.subrange(0, next_at) =~= other_front.subrange(0, next_at));
            let step = spec_read_message(all, at, mode, state, rb, vb);
            assert(step == spec_read_message(other, at, mode, state, rb, vb));
            if step.result is None {
                lemma_await_rows_stable(
                    all,
                    other,
                    step.end,
                    end,
                    mode,
                    step.state,
                    step.rb,
                    step.vb,
                );
            }
        }
    }
}

/// Reading up to `mid` and then on to `end` is reading up to `end`, if the reading up to `mid`
/// ended at `mid` with the run still going.
pub proof fn lemma_await_rows_extend(
    all: Seq<u8>,
    at: int,
    mid: int,
    end: int,
    mode: RowsMode,
    state: FetchState,
    rb: Seq<usize>,
    vb: Seq<(bool, Range<usize>)>,
)
    requires
        mid <= end <= all.len(),
        spec_await_rows(all, at, mid, mode, state, rb, vb).end == mid,
        spec_await_rows(all, at, mid, mode, state, rb, vb).result is None,
    ensures
        spec_await_rows(all, at, end, mode, state, rb, vb) == ({
            let read = spec_await_rows(all, at, mid, mode, state, rb, vb);
            spec_await_rows(all, mid, end, mode, read.state, read.rb, read.vb)
        }),
    decreases mid - at,
{
    if has_message_at(all, at, mid) {
        assert(has_message_at(all, at, end));
        let step = spec_read_message(all, at, mode, state, rb, vb);
        if step.result is None {
            lemma_await_rows_extend(all, step.end, mid, end, mode, step.state, step.rb, step.vb);
        }
    }
}

#[verifier::rlimit(40)]
/// Reading one message more: if the reading in `before` ended where its message in scope
/// ends, with the run still going, and `after` has the next message in scope, then the
/// reading in `after` ends with that message, read as [`spec_read_message`] tells.
pub proof fn lemma_await_rows_step(
    before: PartitionedView,
    after: PartitionedView,
    begin: int,
    mode: RowsMode,
    state: FetchState,
    rb: Seq<usize>,
    vb: Seq<(bool, Range<usize>)>,
)
    requires
        before.current_end <= before.following_end <= before.all.len(),
        after.antecedent_end <= after.current_end <= after.all.len(),
        has_advanced(before, after),
        spec_await_rows(before.all, begin, before.current_end as int, mode, state, rb, vb).end
            == before.current_end,
        spec_await_rows(before.all, begin, before.current_end as int, mode, state, rb, vb).result
            is None,
    ensures
        message_at(after.all, before.current_end as int) == after.current(),
        before.current_end + message_len_at(after.all, before.current_end as int)
            == after.current_end,
        spec_await_rows(after.all, begin, after.current_end as int, mode, state, rb, vb) == ({
            let read = spec_await_rows(
                before.all,
                begin,
                before.current_end as int,
                mode,
                state,
                rb,
                vb,
            );
            spec_read_message(
                after.all,
                before.current_end as int,
                mode,
                read.state,
                read.rb,
                read.vb,
            )
        }),
{
    let mid = before.current_end as int;
    let end = after.current_end as int;
    let held = before.following_end as int;
    assert(before.all.subrange(0, mid) =~= before.all.subrange(0, held).subrange(0, mid));
    assert(after.all.subrange(0, mid) =~= after.all.subrange(0, held).subrange(0, mid));
    lemma_await_rows_stable(before.all, after.all, begin, mid, mode, state, rb, vb);
    lemma_await_rows_extend(after.all, begin, mid, end, mode, state, rb, vb);
    let current = after.current();
    assert(current[1] == after.all[mid + 1] && current[2] == after.all[mid + 2] && current[3]
        == after.all[mid + 3] && current[4] == after.all[mid + 4]);
    assert(has_message_at(after.all, mid, end));
    assert(message_at(after.all, mid) =~= current);
    let read = spec_await_rows(after.all, begin, mid, mode, state, rb, vb);
    let step = spec_read_message(after.all, mid, mode, read.state, read.rb, read.vb);
    assert(step.end == end);
    assert(!has_message_at(after.all, end, end));
    if step.result is None {
        assert(spec_await_rows(after.all, end, end, mode, step.state, step.rb, step.vb) == step);
    }
}

/// What is known once some messages of the answer to a simple query were read.
pub struct ReadyRecord {
    /// The failure that is held back until the backend waits for the next command.
    pub failure: Option<Error>,
    /// The row count of every command that ended.
    pub rows: Seq<u64>,
    /// Where the message that was read last ends.
    pub end: int,
    /// How the query ended, if it has ended: with a failure or without one.
    pub result: Option<Option<Error>>,
}

/// What is known once the message that begins at `at` was read while a simple query runs,
/// given what was known in front of it. The message is read as [`spec_message_ty`] tells and
/// acted on as [`spec_on_simple_message`] tells.
pub open spec fn spec_read_simple_message(
    all: Seq<u8>,
    at: int,
    failure: Option<Error>,
    rows: Seq<u64>,
) -> ReadyRecord {
    let msg = message_at(all, at);
    let end = at + message_len_at(all, at);
    match spec_message_ty(msg) {
        Err(e) => ReadyRecord { failure, rows, end, result: Some(Some(e)) },
        Ok(ty) => {
            let (held, action) = spec_on_simple_message(failure, Message { tag: msg[0], ty });
            match action {
                SimpleAction::Skip => ReadyRecord { failure: held, rows, end, result: None },
                SimpleAction::Rows(n) => ReadyRecord {
                    failure: held,
                    rows: rows.push(n),
                    end,
                    result: None,
                },
                SimpleAction::Finish(outcome) => ReadyRecord {
                    failure: held,
                    rows,
                    end,
                    result: Some(outcome),
                },
            }
        },
    }
}

/// What is known once the messages that lie between `at` and `end` were read one after the
/// other while a simple query runs, each whole and each as [`spec_read_simple_message`]
/// tells. The reading stops at the message that ends the query and in front of what is no
/// whole message.
pub open spec fn spec_await_ready(
    all: Seq<u8>,
    at: int,
    end: int,
    failure: Option<Error>,
    rows: Seq<u64>,
) -> ReadyRecord
    decreases end - at,
{
    if !has_message_at(all, at, end) {
        ReadyRecord { failure, rows, end: at, result: None }
    } else {
        let step = spec_read_simple_message(all, at, failure, rows);
        if step.result is Some {
            step
        } else {
            spec_await_ready(all, step.end, end, step.failure, step.rows)
        }
    }
}

/// If a message begins at `at` in front of `end`, it is the same message in all bytes that
/// begin with the same `end` bytes.
pub proof fn lemma_message_stable(all: Seq<u8>, other: Seq<u8>, at: int, end: int)
    requires
        end <= all.len(),
        end <= other.len(),
        all.subrange(0, end) == other.subrange(0, end),
    ensures
        has_message_at(all, at, end) == has_message_at(other, at, end),
        has_message_at(all, at, end) ==> {
            &&& message_len_at(all, at) == message_len_at(other, at)
            &&& message_at(all, at) == message_at(other, at)
            &&& all.subrange(0, at + message_len_at(all, at)) == other.subrange(
                0,
                at + message_len_at(all, at),
            )
        },
{
    if 0 <= at && at + HEADER_LEN <= end {
        let front = all.subrange(0, end);
        let other_front = other.subrange(0, end);
        assert(all[at + 1] == front[at + 1] && other[at + 1] == other_front[at + 1]);
        assert(all[at + 2] == front[at + 2] && other[at + 2] == other_front[at + 2]);
        assert(all[at + 3] == front[at + 3] && other[at + 3] == other_front[at + 3]);
        assert(all[at + 4] == front[at + 4] && other[at + 4] == other_front[at + 4]);
        assert(message_len_at(all, at) == message_len_at(other, at));
        if has_message_at(all, at, end) {
            let next_at = at + message_len_at(all, at);
            assert(message_at(all, at) =~= front.subrange(at, next_at));
            assert(message_at(other, at) =~= other_front.subrange(at, next_at));
            assert(all.subrange(0, next_at) =~= front.subrange(0, next_at));
            assert(other.subrange(0, next_at) =~= other_front.subrange(0, next_at));
        }
    }
}

/// The bytes that were read ahead begin with a whole message exactly if a whole message
/// begins where the message in scope ends, in front of the end of what was read ahead.
pub proof fn lemma_buffered(nb: PartitionedView)
    requires
        nb.current_end <= nb.following_end <= nb.all.len(),
    ensures
        is_buffered(nb) == has_message_at(nb.all, nb.current_end as int, nb.following_end as int),
        is_buffered(nb) ==> framed_len(nb.following()) == message_len_at(
            nb.all,
            nb.current_end as int,
        ),
{
    let cur = nb.current_end as int;
    let ahead = nb.following();
    if nb.following_end - nb.current_end >= HEADER_LEN {
        assert(ahead[1] == nb.all[cur + 1] && ahead[2] == nb.all[cur + 2] && ahead[3]
            == nb.all[cur + 3] && ahead[4] == nb.all[cur + 4]);
    }
}

/// The message that moved into scope is the message that begins where the message in scope
/// before it ended, and nothing of what lay in front of it has changed.
pub proof fn lemma_message_in_scope(before: PartitionedView, after: PartitionedView)
    requires
        before.current_end <= before.following_end <= before.all.len(),
        after.antecedent_end <= after.current_end <= after.all.len(),
        has_advanced(before, after),
    ensures
        has_message_at(after.all, before.current_end as int, after.current_end as int),
        message_at(after.all, before.current_end as int) == after.current(),
        before.current_end + message_len_at(after.all, before.current_end as int)
            == after.current_end,
        !has_message_at(after.all, after.current_end as int, after.current_end as int),
        after.all.subrange(0, before.current_end as int) == before.all.subrange(
            0,
            before.current_end as int,
        ),
{
    let mid = before.current_end as int;
    let held = before.following_end as int;
    assert(before.all.subrange(0, mid) =~= before.all.subrange(0, held).subrange(0, mid));
    assert(after.all.subrange(0, mid) =~= after.all.subrange(0, held).subrange(0, mid));
    let current = after.current();
    assert(current[1] == after.all[mid + 1] && current[2] == after.all[mid + 2] && current[3]
        == after.all[mid + 3] && current[4] == after.all[mid + 4]);
    assert(message_at(after.all, mid) =~= current);
}

/// What is known of the messages in front of `end` does not depend on the bytes behind `end`.
pub proof fn lemma_await_ready_stable(
    all: Seq<u8>,
    other: Seq<u8>,
    at: int,
    end: int,
    failure: Option<Error>,
    rows: Seq<u64>,
)
    requires
        end <= all.len(),
        end <= other.len(),
        all.subrange(0, end) == other.subrange(0, end),
    ensures
        spec_await_ready(all, at, end, failure, rows) == spec_await_ready(
            other,
            at,
            end,
            failure,
            rows,
        ),
    decreases end - at,
{
    lemma_message_stable(all, other, at, end);
    if has_message_at(all, at, end) {
        let step = spec_read_simple_message(all, at, failure, rows);
        if step.result is None {
            lemma_await_ready_stable(all, other, step.end, end, step.failure, step.rows);
        }
    }
}

/// Reading up to `mid` and then on to `end` is reading up to `end`, if the reading up to `mid`
/// ended at `mid` with the query still running.
pub proof fn lemma_await_ready_extend(
    all: Seq<u8>,
    at: int,
    mid: int,
    end: int,
    failure: Option<Error>,
    rows: Seq<u64>,
)
    requires
        mid <= end <= all.len(),
        spec_await_ready(all, at, mid, failure, rows).end == mid,
        spec_await_ready(all, at, mid, failure, rows).result is None,
    ensures
        spec_await_ready(all, at, end, failure, rows) == ({
            let read = spec_await_ready(all, at, mid, failure, rows);
            spec_await_ready(all, mid, end, read.failure, read.rows)
        }),
    decreases mid - at,
{
    if has_message_at(all, at, mid) {
        assert(has_message_at(all, at, end));
        let step = spec_read_simple_message(all, at, failure, rows);
        if step.result is None {
            lemma_await_ready_extend(all, step.end, mid, end, step.failure, step.rows);
        }
    }
}

#[verifier::rlimit(40)]
/// Reading one message more while a simple query runs: if the reading in `before` ended
/// where its message in scope ends, with the query still running, and `after` has the next
/// message in scope, then the reading in `after` ends with that message, read as
/// [`spec_read_simple_message`] tells.
pub proof fn lemma_await_ready_step(
    before: PartitionedView,
    after: PartitionedView,
    begin: int,
    failure: Option<Error>,
    rows: Seq<u64>,
)
    requires
        before.current_end <= before.following_end <= before.all.len(),
        after.antecedent_end <= after.current_end <= after.all.len(),
        has_advanced(before, after),
        spec_await_ready(before.all, begin, before.current_end as int, failure, rows).end
            == before.current_end,
        spec_await_ready(before.all, begin, before.current_end as int, failure, rows).result
            is None,
    ensures
        message_at(after.all, before.current_end as int) == after.current(),
        spec_await_ready(after.all, begin, after.current_end as int, failure, rows) == ({
            let read = spec_await_ready(
                before.all,
                begin,
                before.current_end as int,
                failure,
                rows,
            );
            spec_read_simple_message(after.all, before.current_end as int, read.failure, read.rows)
        }),
{
    let mid = before.current_end as int;
    let end = after.current_end as int;
    lemma_message_in_scope(before, after);
    lemma_await_ready_stable(before.all, after.all, begin, mid, failure, rows);
    lemma_await_ready_extend(after.all, begin, mid, end, failure, rows);
    let read = spec_await_ready(after.all, begin, mid, failure, rows);
    let step = spec_read_simple_message(after.all, mid, read.failure, read.rows);
    assert(step.end == end);
    if step.result is None {
        assert(spec_await_ready(after.all, end, end, step.failure, step.rows) == step);
    }
}

/// The number of bytes in front of the first entry of a description: the tag, the length
/// and the number of entries.
pub const ENTRIES_OFFSET: usize = 7;

/// What is known once some messages of the answer to a preparation were read.
pub struct PreparedRecord {
    /// What is known about the statement that is being prepared.
    pub state: PrepareState,
    /// The columns that were described.
    pub columns: Seq<ColumnView>,
    /// The types of the parameters that were described.
    pub param_types: Seq<u32>,
    /// Where the message that was read last ends.
    pub end: int,
    /// How the preparation ended, if it has ended: with a failure or without one.
    pub result: Option<Option<Error>>,
}

/// The entries of the description `msg`: what follows the number of entries.
pub open spec fn entries_of(msg: Seq<u8>) -> Seq<u8> {
    msg.subrange(ENTRIES_OFFSET as int, msg.len() as int)
}

/// What is known once the message that begins at `at` was read while a statement is being
/// prepared, given what was known in front of it. The message is read as
/// [`spec_message_ty`] tells and acted on as [`PrepareState::spec_on_message`] tells; a
/// description is read as [`spec_param_types`] and [`spec_columns`] tell, and one that does
/// not hold its entries ends the preparation.
pub open spec fn spec_read_prepare_message(
    all: Seq<u8>,
    at: int,
    state: PrepareState,
    columns: Seq<ColumnView>,
    param_types: Seq<u32>,
) -> PreparedRecord {
    let msg = message_at(all, at);
    let end = at + message_len_at(all, at);
    match spec_message_ty(msg) {
        Err(e) => PreparedRecord { state, columns, param_types, end, result: Some(Some(e)) },
        Ok(ty) => {
            let (next, action) = state.spec_on_message(Message { tag: msg[0], ty });
            match action {
                PrepareAction::Skip => PreparedRecord {
                    state: next,
                    columns,
                    param_types,
                    end,
                    result: None,
                },
                PrepareAction::Params(n) => match spec_param_types(entries_of(msg), 0, n as nat) {
                    Some(types) => PreparedRecord {
                        state: next,
                        columns,
                        param_types: types,
                        end,
                        result: None,
                    },
                    None => PreparedRecord {
                        state: next,
                        columns,
                        param_types,
                        end,
                        result: Some(Some(Error::UnexpectedValueFromBytes)),
                    },
                },
                PrepareAction::Columns(n) => match spec_columns(entries_of(msg), 0, n as nat) {
                    Some(described) => PreparedRecord {
                        state: next,
                        columns: described,
                        param_types,
                        end,
                        result: None,
                    },
                    None => PreparedRecord {
                        state: next,
                        columns,
                        param_types,
                        end,
                        result: Some(Some(Error::UnexpectedValueFromBytes)),
                    },
                },
                PrepareAction::Finish(outcome) => PreparedRecord {
                    state: next,
                    columns,
                    param_types,
                    end,
                    result: Some(outcome),
                },
            }
        },
    }
}

/// What is known once the messages that lie between `at` and `end` were read one after the
/// other while a statement is being prepared, each whole and each as
/// [`spec_read_prepare_message`] tells. The reading stops at the message that ends the
/// preparation and in front of what is no whole message.
pub open spec fn spec_await_prepared(
    all: Seq<u8>,
    at: int,
    end: int,
    state: PrepareState,
    columns: Seq<ColumnView>,
    param_types: Seq<u32>,
) -> PreparedRecord
    decreases end - at,
{
    if !has_message_at(all, at, end) {
        PreparedRecord { state, columns, param_types, end: at, result: None }
    } else {
        let step = spec_read_prepare_message(all, at, state, columns, param_types);
        if step.result is Some {
            step
        } else {
            spec_await_prepared(all, step.end, end, step.state, step.columns, step.param_types)
        }
    }
}

/// What is known of the messages in front of `end` does not depend on the bytes behind `end`.
pub proof fn lemma_await_prepared_stable(
    all: Seq<u8>,
    other: Seq<u8>,
    at: int,
    end: int,
    state: PrepareState,
    columns: Seq<ColumnView>,
    param_types: Seq<u32>,
)
    requires
        end <= all.len(),
        end <= other.len(),
        all.subrange(0, end) == other.subrange(0, end),
    ensures
        spec_await_prepared(all, at, end, state, columns, param_types) == spec_await_prepared(
            other,
            at,
            end,
            state,
            columns,
            param_types,
        ),
    decreases end - at,
{
    lemma_message_stable(all, other, at, end);
    if has_message_at(all, at, end) {
        let step = spec_read_prepare_message(all, at, state, columns, param_types);
        if step.result is None {
            lemma_await_prepared_stable(
                all,
                other,
                step.end,
                end,
                step.state,
                step.columns,
                step.param_types,
            );
        }
    }
}

/// Reading up to `mid` and then on to `end` is reading up to `end`, if the reading up to `mid`
/// ended at `mid` with the preparation still going.
pub proof fn lemma_await_prepared_extend(
    all: Seq<u8>,
    at: int,
    mid: int,
    end: int,
    state: PrepareState,
    columns: Seq<ColumnView>,
    param_types: Seq<u32>,
)
    requires
        mid <= end <= all.len(),
        spec_await_prepared(all, at, mid, state, columns, param_types).end == mid,
        spec_await_prepared(all, at, mid, state, columns, param_types).result is None,
    ensures
        spec_await_prepared(all, at, end, state, columns, param_types) == ({
            let read = spec_await_prepared(all, at, mid, state, columns, param_types);
            spec_await_prepared(all, mid, end, read.state, read.columns, read.param_types)
        }),
    decreases mid - at,
{
    if has_message_at(all, at, mid) {
        assert(has_message_at(all, at, end));
        let step = spec_read_prepare_message(all, at, state, columns, param_types);
        if step.result is None {
            lemma_await_prepared_extend(
                all,
                step.end,
                mid,
                end,
                step.state,
                step.columns,
                step.param_types,
            );
        }
    }
}

#[verifier::rlimit(40)]
/// Reading one message more while a statement is being prepared: if the reading in `before`
/// ended where its message in scope ends, with the preparation still going, and `after` has
/// the next message in scope, then the reading in `after` ends with that message, read as
/// [`spec_read_prepare_message`] tells.
pub proof fn lemma_await_prepared_step(
    before: PartitionedView,
    after: PartitionedView,
    begin: int,
    state: PrepareState,
    columns: Seq<ColumnView>,
    param_types: Seq<u32>,
)
    requires
        before.current_end <= before.following_end <= before.all.len(),
        after.antecedent_end <= after.current_end <= after.all.len(),
        has_advanced(before, after),
        spec_await_prepared(
            before.all,
            begin,
            before.current_end as int,
            state,
            columns,
            param_types,
        ).end == before.current_end,
        spec_await_prepared(
            before.all,
            begin,
            before.current_end as int,
            state,
            columns,
            param_types,
        ).result is None,
    ensures
        message_at(after.all, before.current_end as int) == after.current(),
        spec_await_prepared(after.all, begin, after.current_end as int, state, columns, param_types)
            == ({
            let read = spec_await_prepared(
                before.all,
                begin,
                before.current_end as int,
                state,
                columns,
                param_types,
            );
            spec_read_prepare_message(
                after.all,
                before.current_end as int,
                read.state,
                read.columns,
                read.param_types,
            )
        }),
{
    let mid = before.current_end as int;
    let end = after.current_end as int;
    lemma_message_in_scope(before, after);
    lemma_await_prepared_stable(before.all, after.all, begin, mid, state, columns, param_types);
    lemma_await_prepared_extend(after.all, begin, mid, end, state, columns, param_types);
    let read = spec_await_prepared(after.all, begin, mid, state, columns, param_types);
    let step = spec_read_prepare_message(
        after.all,
        mid,
        read.state,
        read.columns,
        read.param_types,
    );
    assert(step.end == end);
    if step.result is None {
        assert(spec_await_prepared(
            after.all,
            end,
            end,
            step.state,
            step.columns,
            step.param_types,
        ) == step);
    }
}

/// What is known once some of the messages were read that a server sends while a session
/// starts.
pub struct SessionRecord {
    /// The key for cancelling requests, if the server gave one.
    pub key: Option<(u32, u32)>,
    /// Where the message that was read last ends.
    pub end: int,
    /// How the start ended, if it has ended: with a failure or without one.
    pub result: Option<Option<Error>>,
}

/// What is known once the message that begins at `at` was read while a session starts, given
/// the key that was held in front of it. The message is read as [`spec_message_ty`] tells
/// and acted on as [`spec_on_session_message`] tells.
pub open spec fn spec_read_session_message(
    all: Seq<u8>,
    at: int,
    key: Option<(u32, u32)>,
) -> SessionRecord {
    let msg = message_at(all, at);
    let end = at + message_len_at(all, at);
    match spec_message_ty(msg) {
        Err(e) => SessionRecord { key, end, result: Some(Some(e)) },
        Ok(ty) => {
            let (held, result) = spec_on_session_message(key, Message { tag: msg[0], ty });
            SessionRecord { key: held, end, result }
        },
    }
}

/// What is known once the messages that lie between `at` and `end` were read one after the
/// other while a session starts, each whole and each as [`spec_read_session_message`] tells.
/// The reading stops at the message that ends the start and in front of what is no whole
/// message.
pub open spec fn spec_await_session(
    all: Seq<u8>,
    at: int,
    end: int,
    key: Option<(u32, u32)>,
) -> SessionRecord
    decreases end - at,
{
    if !has_message_at(all, at, end) {
        SessionRecord { key, end: at, result: None }
    } else {
        let step = spec_read_session_message(all, at, key);
        if step.result is Some {
            step
        } else {
            spec_await_session(all, step.end, end, step.key)
        }
    }
}

/// What is known of the messages in front of `end` does not depend on the bytes behind `end`.
pub proof fn lemma_await_session_stable(
    all: Seq<u8>,
    other: Seq<u8>,
    at: int,
    end: int,
    key: Option<(u32, u32)>,
)
    requires
        end <= all.len(),
        end <= other.len(),
        all.subrange(0, end) == other.subrange(0, end),
    ensures
        spec_await_session(all, at, end, key) == spec_await_session(other, at, end, key),
    decreases end - at,
{
    lemma_message_stable(all, other, at, end);
    if has_message_at(all, at, end) {
        let step = spec_read_session_message(all, at, key);
        if step.result is None {
            lemma_await_session_stable(all, other, step.end, end, step.key);
        }
    }
}

/// Reading up to `mid` and then on to `end` is reading up to `end`, if the reading up to `mid`
/// ended at `mid` with the start still going.
pub proof fn lemma_await_session_extend(
    all: Seq<u8>,
    at: int,
    mid: int,
    end: int,
    key: Option<(u32, u32)>,
)
    requires
        mid <= end <= all.len(),
        spec_await_session(all, at, mid, key).end == mid,
        spec_await_session(all, at, mid, key).result is None,
    ensures
        spec_await_session(all, at, end, key) == spec_await_session(
            all,
            mid,
            end,
            spec_await_session(all, at, mid, key).key,
        ),
    decreases mid - at,
{
    if has_message_at(all, at, mid) {
        assert(has_message_at(all, at, end));
        let step = spec_read_session_message(all, at, key);
        if step.result is None {
            lemma_await_session_extend(all, step.end, mid, end, step.key);
        }
    }
}

#[verifier::rlimit(40)]
/// Reading one message more while a session starts: if the reading in `before` ended where
/// its message in scope ends, with the start still going, and `after` has the next message
/// in scope, then the reading in `after` ends with that message, read as
/// [`spec_read_session_message`] tells.
pub proof fn lemma_await_session_step(
    before: PartitionedView,
    after: PartitionedView,
    begin: int,
    key: Option<(u32, u32)>,
)
    requires
        before.current_end <= before.following_end <= before.all.len(),
        after.antecedent_end <= after.current_end <= after.all.len(),
        has_advanced(before, after),
        spec_await_session(before.all, begin, before.current_end as int, key).end
            == before.current_end,
        spec_await_session(before.all, begin, before.current_end as int, key).result is None,
    ensures
        message_at(after.all, before.current_end as int) == after.current(),
        spec_await_session(after.all, begin, after.current_end as int, key)
            == spec_read_session_message(
            after.all,
            before.current_end as int,
            spec_await_session(before.all, begin, before.current_end as int, key).key,
        ),
{
    let mid = before.current_end as int;
    let end = after.current_end as int;
    lemma_message_in_scope(before, after);
    lemma_await_session_stable(before.all, after.all, begin, mid, key);
    lemma_await_session_extend(after.all, begin, mid, end, key);
    let read = spec_await_session(after.all, begin, mid, key);
    let step = spec_read_session_message(after.all, mid, read.key);
    assert(step.end == end);
    if step.result is None {
        assert(spec_await_session(after.all, end, end, step.key) == step);
    }
}

} // verus!
