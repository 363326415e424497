use base64::Engine;
use std::cell::RefCell;
use std::io::ErrorKind;
use std::rc::Rc;
use wtx::database::client::postgres::executor::fetch::{
    fetch_msg_from_stream, fetch_one_msg_from_stream,
};
use wtx::database::client::postgres::executor::commons::{
    on_awaited_request, on_request, on_session_message, AuthStage, AuthStep,
};
use wtx::database::client::postgres::executor::fetch::whole_len;
use wtx::database::client::postgres::sasl::ChannelBinding;
use wtx::database::client::postgres::Authentication;
use wtx::database::client::postgres::executor::{
    await_ready, encryption_answer, make_room, prepare_statement,
    read_after_authentication_data, Executor, TlsStream,
};
use wtx::database::client::postgres::protocol;
use wtx::database::client::postgres::sasl::{nonce, salted_password, server_signature};
use wtx::database::client::postgres::statements::{fnv1a64, u64_to_decimal};
use wtx::database::client::postgres::{
    Config, ExecutorBuffer, Message, MessageTy, Statement, Statements,
};
use wtx::misc::{PartitionedFilledBuffer, Stream, Xorshift64};
use wtx::Error;

#[derive(Default)]
struct Wire {
    incoming: Vec<u8>,
    chunk: usize,
    fail_reads: bool,
    fail_writes: bool,
    outgoing: Vec<u8>,
    reads: usize,
}

#[derive(Clone, Default)]
struct Scripted(Rc<RefCell<Wire>>);

impl Scripted {
    fn with(incoming: &[u8]) -> Self {
        let this = Self::default();
        this.feed(incoming);
        this
    }

    fn feed(&self, incoming: &[u8]) {
        self.0.borrow_mut().incoming.extend_from_slice(incoming);
    }

    fn take_outgoing(&self) -> Vec<u8> {
        std::mem::take(&mut self.0.borrow_mut().outgoing)
    }

    fn reads(&self) -> usize {
        self.0.borrow().reads
    }
}

impl Stream for Scripted {
    fn read(&mut self, bytes: &mut [u8]) -> Result<usize, ErrorKind> {
        let mut wire = self.0.borrow_mut();
        wire.reads += 1;
        if wire.fail_reads {
            return Err(ErrorKind::BrokenPipe);
        }
        let mut n = wire.incoming.len().min(bytes.len());
        if wire.chunk > 0 {
            n = n.min(wire.chunk);
        }
        bytes[..n].copy_from_slice(&wire.incoming[..n]);
        wire.incoming.drain(..n);
        Ok(n)
    }

    fn write_all(&mut self, bytes: &[u8]) -> Result<(), ErrorKind> {
        let mut wire = self.0.borrow_mut();
        if wire.fail_writes {
            return Err(ErrorKind::BrokenPipe);
        }
        wire.outgoing.extend_from_slice(bytes);
        Ok(())
    }
}

struct Encrypted(Scripted, Option<Vec<u8>>);

impl Stream for Encrypted {
    fn read(&mut self, bytes: &mut [u8]) -> Result<usize, ErrorKind> {
        self.0.read(bytes)
    }

    fn write_all(&mut self, bytes: &[u8]) -> Result<(), ErrorKind> {
        self.0.write_all(bytes)
    }
}

impl TlsStream for Encrypted {
    fn tls_server_end_point(&self) -> Option<Vec<u8>> {
        self.1.clone()
    }
}

fn msg(tag: u8, body: &[u8]) -> Vec<u8> {
    let mut bytes = vec![tag];
    bytes.extend_from_slice(&(body.len() as u32 + 4).to_be_bytes());
    bytes.extend_from_slice(body);
    bytes
}

fn ready() -> Vec<u8> {
    msg(b'Z', b"I")
}

fn prepared() -> Vec<u8> {
    let mut column = vec![0, 1];
    column.extend_from_slice(b"n\0");
    column.extend_from_slice(&[0, 0, 0, 0, 0, 0, 0, 0, 0, 23, 0, 4, 255, 255, 255, 255, 0, 1]);
    [msg(b'1', b""), msg(b't', &[0, 1, 0, 0, 0, 23]), msg(b'T', &column), ready()].concat()
}

fn data_row(values: &[Option<&[u8]>]) -> Vec<u8> {
    let mut body = (values.len() as u16).to_be_bytes().to_vec();
    for value in values {
        match value {
            Some(value) => {
                body.extend_from_slice(&(value.len() as u32).to_be_bytes());
                body.extend_from_slice(value);
            }
            None => body.extend_from_slice(&[255; 4]),
        }
    }
    msg(b'D', &body)
}

fn error(severity: &[u8], code: &[u8; 5]) -> Vec<u8> {
    let mut body = vec![b'S'];
    body.extend_from_slice(severity);
    body.extend_from_slice(b"\0C");
    body.extend_from_slice(code);
    body.extend_from_slice(b"\0Mmessage\0\0");
    msg(b'E', &body)
}

fn executor(stream: &Scripted, max_stmts: usize) -> Executor<Scripted> {
    Executor::from_parts(ExecutorBuffer::new(max_stmts), stream.clone())
}

fn parse_describe_sync(cmd: &str) -> Vec<u8> {
    let name = u64_to_decimal(fnv1a64(cmd.as_bytes()));
    let mut out = Vec::new();
    protocol::parse(&mut out, &name, cmd.as_bytes(), &[]).unwrap();
    protocol::describe(&mut out, b'S', &name).unwrap();
    protocol::sync(&mut out);
    out
}

fn bind_execute_sync(cmd: &str, params: &[Option<&[u8]>]) -> Vec<u8> {
    let name = u64_to_decimal(fnv1a64(cmd.as_bytes()));
    let mut out = Vec::new();
    protocol::bind(&mut out, b"", &name, params).unwrap();
    protocol::execute(&mut out, b"", 0).unwrap();
    protocol::sync(&mut out);
    out
}

#[test]
fn pg_prepared_statement_reuse() {
    let stream = Scripted::with(&prepared());
    let mut executor = executor(&stream, 8);
    let first = executor.prepare("SELECT $1::int").unwrap();
    assert_eq!(first, fnv1a64(b"SELECT $1::int"));
    assert_eq!(stream.take_outgoing(), parse_describe_sync("SELECT $1::int"));
    let reads = stream.reads();
    let second = executor.prepare("SELECT $1::int").unwrap();
    assert_eq!(second, first);
    assert!(stream.take_outgoing().is_empty());
    assert_eq!(stream.reads(), reads);
    assert_eq!(executor.eb_mut().stmts.len(), 1);
    let stmt = executor.eb_mut().stmts.get(0).unwrap().clone();
    assert_eq!(stmt.id, first);
    assert_eq!(stmt.param_types, [23]);
    assert_eq!(stmt.columns.len(), 1);
    assert_eq!(stmt.columns[0].name, b"n");
    assert_eq!(stmt.columns[0].type_oid, 23);
}

#[test]
fn partitioned_filled_buffer_pipelined_fetch() {
    let stream = Scripted::with(&[ready(), ready()].concat());
    let mut reader = stream.clone();
    let mut nb = PartitionedFilledBuffer::with_capacity(64).unwrap();
    let mut is_closed = false;
    let expected = Message { tag: b'Z', ty: MessageTy::ReadyForQuery };
    assert_eq!(fetch_msg_from_stream(&mut is_closed, &mut nb, &mut reader), Ok(expected));
    assert_eq!(stream.reads(), 1);
    assert_eq!(nb.current(), ready());
    assert_eq!(nb.following(), ready());
    assert_eq!(fetch_msg_from_stream(&mut is_closed, &mut nb, &mut reader), Ok(expected));
    assert_eq!(stream.reads(), 1);
    assert_eq!(nb.antecedent(), ready());
    assert_eq!(nb.current(), ready());
    assert!(nb.following().is_empty());
    assert!(!is_closed);
}

#[test]
fn messages_are_put_together_from_short_reads() {
    let stream = Scripted::with(&msg(b'C', b"SELECT 1\0"));
    stream.0.borrow_mut().chunk = 3;
    let mut reader = stream.clone();
    let mut nb = PartitionedFilledBuffer::new();
    assert_eq!(fetch_one_msg_from_stream(&mut nb, &mut reader), Ok(b'C'));
    assert_eq!(nb.current(), msg(b'C', b"SELECT 1\0"));
    assert_eq!((nb.antecedent_end_idx(), nb.current_end_idx(), nb.following_end_idx()), (0, 14, 14));
    assert_eq!(fetch_one_msg_from_stream(&mut nb, &mut reader), Err(Error::UnexpectedBufferState));
    assert_eq!((nb.antecedent_end_idx(), nb.current_end_idx(), nb.following_end_idx()), (0, 14, 14));
}

#[test]
fn truncated_and_malformed_messages_close_the_connection() {
    let mut is_closed = false;
    let mut nb = PartitionedFilledBuffer::new();
    let mut truncated = Scripted::with(&msg(b'C', b"SELECT 1\0")[..9]);
    assert_eq!(
        fetch_msg_from_stream(&mut is_closed, &mut nb, &mut truncated),
        Err(Error::UnexpectedBufferState)
    );
    assert!(is_closed);
    let mut short = Scripted::with(&[b'Z', 0, 0, 0, 3]);
    assert_eq!(
        fetch_one_msg_from_stream(&mut PartitionedFilledBuffer::new(), &mut short),
        Err(Error::UnexpectedValueFromBytes)
    );
    let mut is_closed = false;
    let mut unknown = Scripted::with(&msg(b'?', b""));
    assert_eq!(
        fetch_msg_from_stream(&mut is_closed, &mut PartitionedFilledBuffer::new(), &mut unknown),
        Err(Error::UnexpectedValueFromBytes)
    );
    assert!(is_closed);
}

#[test]
fn warnings_are_passed_over() {
    let stream = Scripted::with(&[msg(b'N', b"SWARNING\0\0"), msg(b'N', b"\0"), ready()].concat());
    let mut reader = stream.clone();
    let mut nb = PartitionedFilledBuffer::new();
    let mut is_closed = false;
    assert_eq!(
        fetch_msg_from_stream(&mut is_closed, &mut nb, &mut reader),
        Ok(Message { tag: b'Z', ty: MessageTy::ReadyForQuery })
    );
    assert_eq!(nb.current(), ready());
}

#[test]
fn execute_with_stmt_tells_the_row_count() {
    let stream = Scripted::with(&prepared());
    stream.feed(&[msg(b'2', b""), msg(b'C', b"INSERT 0 3\0"), ready()].concat());
    let mut executor = executor(&stream, 8);
    let params: [Option<&[u8]>; 1] = [Some(&[0, 0, 0, 7])];
    assert_eq!(executor.execute_with_stmt("INSERT INTO t VALUES ($1)", &params), Ok(3));
    let mut expected = parse_describe_sync("INSERT INTO t VALUES ($1)");
    expected.extend(bind_execute_sync("INSERT INTO t VALUES ($1)", &params));
    assert_eq!(stream.take_outgoing(), expected);
    assert!(!executor.is_closed());

    stream.feed(&[msg(b'2', b""), data_row(&[None]), msg(b'I', b""), ready()].concat());
    assert_eq!(executor.execute_with_stmt("INSERT INTO t VALUES ($1)", &[None]), Ok(0));
    assert_eq!(stream.take_outgoing(), bind_execute_sync("INSERT INTO t VALUES ($1)", &[None]));
}

#[test]
fn fetch_with_stmt_hands_out_the_last_row() {
    let stream = Scripted::with(&prepared());
    stream.feed(
        &[
            msg(b'2', b""),
            data_row(&[Some(b"first")]),
            data_row(&[Some(b"last"), None]),
            msg(b'C', b"SELECT 2\0"),
            ready(),
        ]
        .concat(),
    );
    let mut executor = executor(&stream, 8);
    let record = executor.fetch_with_stmt("SELECT 1", &[]).unwrap();
    assert_eq!(record.len(), 2);
    assert_eq!(record.value(0), Some(&b"last"[..]));
    assert_eq!(record.value(1), None);
}

#[test]
fn fetch_with_stmt_without_a_row_is_no_record() {
    let stream = Scripted::with(&prepared());
    stream.feed(&[msg(b'2', b""), msg(b'C', b"SELECT 0\0"), ready()].concat());
    let mut executor = executor(&stream, 8);
    assert_eq!(executor.fetch_with_stmt("SELECT 1", &[]).map(|_| ()), Err(Error::NoRecord));
    assert!(!executor.is_closed());
}

#[test]
fn fetch_with_stmt_takes_a_row_without_columns() {
    let stream = Scripted::with(&prepared());
    stream.feed(&[msg(b'2', b""), data_row(&[]), msg(b'C', b"SELECT 1\0"), ready()].concat());
    let mut executor = executor(&stream, 8);
    let record = executor.fetch_with_stmt("SELECT", &[]).unwrap();
    assert_eq!(record.len(), 0);
}

#[test]
fn fetch_many_with_stmt_hands_out_every_row() {
    let stream = Scripted::with(&prepared());
    stream.feed(
        &[
            msg(b'2', b""),
            data_row(&[Some(b"a"), Some(b"bc")]),
            data_row(&[]),
            data_row(&[None, Some(b"")]),
            msg(b'C', b"SELECT 3\0"),
            ready(),
        ]
        .concat(),
    );
    let mut executor = executor(&stream, 8);
    let mut seen: Vec<usize> = Vec::new();
    let records = executor
        .fetch_many_with_stmt("SELECT *", &[], |record| {
            seen.push(record.len());
            Ok(())
        })
        .unwrap();
    assert_eq!(seen, [2, 0, 2]);
    assert_eq!(records.len(), 3);
    assert_eq!(records.get(0).unwrap().value(0), Some(&b"a"[..]));
    assert_eq!(records.get(0).unwrap().value(1), Some(&b"bc"[..]));
    assert_eq!(records.get(1).unwrap().len(), 0);
    assert_eq!(records.get(2).unwrap().value(0), None);
    assert_eq!(records.get(2).unwrap().value(1), Some(&b""[..]));
    assert!(records.get(3).is_none());
}

#[test]
fn a_failure_is_reported_once_the_backend_is_ready_again() {
    let stream = Scripted::with(&prepared());
    stream.feed(&[msg(b'2', b""), data_row(&[Some(b"a")]), error(b"ERROR", b"22012")].concat());
    stream.feed(&[data_row(&[Some(b"b")]), error(b"ERROR", b"99999"), ready()].concat());
    let mut executor = executor(&stream, 8);
    assert_eq!(
        executor.fetch_many_with_stmt("SELECT 1/0", &[], |_| Ok(())).map(|_| ()),
        Err(Error::DatabaseError { is_fatal: false, code: *b"22012" })
    );
    assert!(!executor.is_closed());
    assert!(stream.0.borrow().incoming.is_empty());
    assert_eq!(executor.eb_mut().rb.len(), 1);
    stream.take_outgoing();
    stream.feed(&[msg(b'2', b""), msg(b'C', b"SELECT 1\0"), ready()].concat());
    assert_eq!(executor.execute_with_stmt("SELECT 1/0", &[]), Ok(1));
}

#[test]
fn a_fatal_failure_closes_the_connection() {
    let stream = Scripted::with(&[error(b"FATAL", b"57P01"), ready()].concat());
    let mut executor = executor(&stream, 8);
    assert_eq!(
        executor.execute("SELECT 1"),
        Err(Error::DatabaseError { is_fatal: true, code: *b"57P01" })
    );
    assert!(executor.is_closed());
    stream.take_outgoing();
    assert_eq!(executor.execute("SELECT 1"), Err(Error::ClosedConnection));
    assert_eq!(executor.prepare("SELECT 1"), Err(Error::ClosedConnection));
    assert_eq!(executor.execute_with_stmt("SELECT 1", &[]), Err(Error::ClosedConnection));
    assert_eq!(executor.fetch_with_stmt("SELECT 1", &[]).map(|_| ()), Err(Error::ClosedConnection));
    assert_eq!(
        executor.fetch_many_with_stmt("SELECT 1", &[], |_| Ok(())).map(|_| ()),
        Err(Error::ClosedConnection)
    );
    assert_eq!(executor.transaction(), Err(Error::ClosedConnection));
    assert_eq!(executor.commit(), Err(Error::ClosedConnection));
    assert_eq!(executor.rollback(), Err(Error::ClosedConnection));
    assert!(stream.take_outgoing().is_empty());
    assert_eq!(stream.0.borrow().incoming, ready());
}

#[test]
fn a_failing_stream_closes_the_connection() {
    let stream = Scripted::default();
    stream.0.borrow_mut().fail_writes = true;
    let mut writer = executor(&stream, 8);
    assert_eq!(writer.execute("SELECT 1"), Err(Error::Io(ErrorKind::BrokenPipe)));
    assert!(writer.is_closed());
    let stream = Scripted::default();
    stream.0.borrow_mut().fail_reads = true;
    let mut reader = executor(&stream, 8);
    assert_eq!(reader.prepare("SELECT 1"), Err(Error::Io(ErrorKind::BrokenPipe)));
    assert!(reader.is_closed());
}

#[test]
fn a_message_out_of_place_is_unexpected() {
    let stream = Scripted::with(&prepared());
    stream.feed(&[msg(b'2', b""), msg(b'1', b"")].concat());
    let mut bound = executor(&stream, 8);
    assert_eq!(
        bound.execute_with_stmt("SELECT 1", &[]),
        Err(Error::UnexpectedDatabaseMessage { received: b'1' })
    );
    assert!(bound.is_closed());
    let stream = Scripted::with(&prepared());
    stream.feed(&data_row(&[]));
    let mut unbound = executor(&stream, 8);
    assert_eq!(
        unbound.execute_with_stmt("SELECT 1", &[]),
        Err(Error::UnexpectedDatabaseMessage { received: b'D' })
    );
    let stream = Scripted::with(&[msg(b't', &[0, 0]), ready()].concat());
    let mut unparsed = executor(&stream, 8);
    assert_eq!(
        unparsed.prepare("SELECT 1"),
        Err(Error::UnexpectedDatabaseMessage { received: b't' })
    );
    let stream = Scripted::with(&[msg(b'1', b""), ready()].concat());
    let mut undescribed = executor(&stream, 8);
    assert_eq!(
        undescribed.prepare("SELECT 1"),
        Err(Error::UnexpectedDatabaseMessage { received: b'Z' })
    );
    assert_eq!(undescribed.eb_mut().stmts.len(), 0);
}

#[test]
fn a_statement_that_yields_nothing_is_prepared_too() {
    let stream = Scripted::with(&[msg(b'1', b""), msg(b't', &[0, 0]), msg(b'n', b""), ready()].concat());
    let mut executor = executor(&stream, 8);
    assert_eq!(executor.prepare("DELETE FROM t"), Ok(fnv1a64(b"DELETE FROM t")));
    let stmt = executor.eb_mut().stmts.get(0).unwrap().clone();
    assert!(stmt.columns.is_empty());
    assert!(stmt.param_types.is_empty());
}

#[test]
fn a_failed_preparation_is_not_remembered() {
    let stream = Scripted::with(&[error(b"ERROR", b"42601"), ready()].concat());
    let mut executor = executor(&stream, 8);
    assert_eq!(
        executor.prepare("SELEC 1"),
        Err(Error::DatabaseError { is_fatal: false, code: *b"42601" })
    );
    assert_eq!(executor.eb_mut().stmts.len(), 0);
    assert!(!executor.is_closed());
}

#[test]
fn a_full_cache_closes_the_least_recently_used_statement_first() {
    let stream = Scripted::with(&prepared());
    let mut executor = executor(&stream, 2);
    let a = executor.prepare("A").unwrap();
    stream.feed(&prepared());
    let b = executor.prepare("B").unwrap();
    executor.prepare("A").unwrap();
    stream.take_outgoing();
    stream.feed(&[msg(b'3', b""), ready(), prepared()].concat());
    let c = executor.prepare("C").unwrap();
    let mut expected = Vec::new();
    protocol::close(&mut expected, b'S', &u64_to_decimal(b)).unwrap();
    protocol::sync(&mut expected);
    expected.extend(parse_describe_sync("C"));
    assert_eq!(stream.take_outgoing(), expected);
    let stmts = &executor.eb_mut().stmts;
    assert_eq!(stmts.len(), 2);
    assert_eq!(stmts.capacity(), 2);
    assert_eq!(stmts.get(0).unwrap().id, a);
    assert_eq!(stmts.get(1).unwrap().id, c);
}

#[test]
fn simple_queries_tell_the_row_count_of_every_command() {
    let stream = Scripted::with(
        &[
            msg(b'C', b"INSERT 0 2\0"),
            msg(b'T', &[0, 0]),
            data_row(&[]),
            msg(b'C', b"SELECT 1\0"),
            msg(b'I', b""),
            ready(),
        ]
        .concat(),
    );
    let mut executor = executor(&stream, 8);
    assert_eq!(executor.execute("INSERT ...; SELECT ...;"), Ok(vec![2, 1]));
    assert_eq!(stream.take_outgoing(), b"Q\0\0\0\x1cINSERT ...; SELECT ...;\0");
}

#[test]
fn transactions_do_not_nest() {
    let stream = Scripted::with(&[msg(b'C', b"BEGIN\0"), msg(b'Z', b"T")].concat());
    let mut executor = executor(&stream, 8);
    assert!(!executor.is_in_transaction());
    assert_eq!(executor.commit(), Ok(()));
    assert_eq!(executor.rollback(), Ok(()));
    assert!(stream.take_outgoing().is_empty());
    assert_eq!(executor.transaction(), Ok(()));
    assert!(executor.is_in_transaction());
    assert_eq!(stream.take_outgoing(), b"Q\0\0\0\x0aBEGIN\0");
    assert_eq!(executor.transaction(), Err(Error::TransactionAlreadyOpen));
    assert!(stream.take_outgoing().is_empty());
    stream.feed(&[msg(b'C', b"COMMIT\0"), ready()].concat());
    assert_eq!(executor.commit(), Ok(()));
    assert!(!executor.is_in_transaction());
    assert_eq!(stream.take_outgoing(), b"Q\0\0\0\x0bCOMMIT\0");
    stream.feed(&[msg(b'C', b"BEGIN\0"), ready(), msg(b'C', b"ROLLBACK\0"), ready()].concat());
    assert_eq!(executor.transaction(), Ok(()));
    assert_eq!(executor.rollback(), Ok(()));
    assert!(!executor.is_in_transaction());
}

#[test]
fn connect_without_a_password_check() {
    let stream = Scripted::with(
        &[
            msg(b'R', &[0, 0, 0, 0]),
            msg(b'S', b"server_version\x0016.1\0"),
            msg(b'K', &[0, 0, 0, 9, 0, 0, 0, 8]),
            ready(),
        ]
        .concat(),
    );
    let config = Config::from_user_password_db(b"bob", b"secret", b"shop");
    let executor =
        Executor::connect(&config, ExecutorBuffer::new(4), &mut Xorshift64::from(1), stream.clone())
            .unwrap();
    assert!(!executor.is_closed());
    assert_eq!(executor.backend_key(), Some((9, 8)));
    let mut expected = Vec::new();
    protocol::initial_conn_msg(&mut expected, &config).unwrap();
    assert_eq!(stream.take_outgoing(), expected);
}

#[test]
fn connect_with_a_salted_md5_digest() {
    let stream = Scripted::with(
        &[msg(b'R', &[0, 0, 0, 5, 0x2a, 0x3d, 0x8f, 0xe0]), msg(b'R', &[0, 0, 0, 0]), ready()]
            .concat(),
    );
    let config = Config::from_user_password_db(b"md5_user", b"password", b"shop");
    let executor =
        Executor::connect(&config, ExecutorBuffer::new(4), &mut Xorshift64::from(1), stream.clone())
            .unwrap();
    assert!(!executor.is_closed());
    let mut expected = Vec::new();
    protocol::initial_conn_msg(&mut expected, &config).unwrap();
    expected.extend_from_slice(b"p\0\0\0\x28md562af4dd09bbb41884907a838a3233294\0");
    assert_eq!(stream.take_outgoing(), expected);
}

fn scram_script(password: &[u8], signature_of: &[u8], end_point: &[u8], header: &[u8]) -> Vec<u8> {
    let engine = base64::engine::general_purpose::STANDARD;
    let client_nonce = nonce(&mut Xorshift64::from(5));
    let server_nonce = [&client_nonce[..], b"server"].concat();
    let server_first = [b"r=", &server_nonce[..], b",s=c2FsdA==,i=4096"].concat();
    let binding = engine.encode([header, end_point].concat());
    let auth_message = [
        b"n=,r=",
        &client_nonce[..],
        b",",
        &server_first[..],
        b",c=",
        binding.as_bytes(),
        b",r=",
        &server_nonce[..],
    ]
    .concat();
    let _ = password;
    let salted = salted_password(4096, b"salt", signature_of);
    let verifier = engine.encode(server_signature(&salted, &auth_message));
    [
        msg(b'R', &[&[0, 0, 0, 10][..], b"SCRAM-SHA-256-PLUS\0SCRAM-SHA-256\0\0"].concat()),
        msg(b'R', &[&[0, 0, 0, 11][..], &server_first[..]].concat()),
        msg(b'R', &[&[0, 0, 0, 12][..], b"v=", verifier.as_bytes()].concat()),
        msg(b'R', &[0, 0, 0, 0]),
        ready(),
    ]
    .concat()
}

#[test]
fn connect_with_scram_sha_256() {
    let stream = Scripted::with(&scram_script(b"secret", b"secret", b"", b"n,,"));
    let config = Config::from_user_password_db(b"bob", b"secret", b"shop");
    let executor =
        Executor::connect(&config, ExecutorBuffer::new(4), &mut Xorshift64::from(5), stream.clone())
            .unwrap();
    assert!(!executor.is_closed());
    assert_eq!(executor.backend_key(), None);
    let written = stream.take_outgoing();
    let client_nonce = nonce(&mut Xorshift64::from(5));
    let mut expected = Vec::new();
    protocol::initial_conn_msg(&mut expected, &config).unwrap();
    let client_first = [b"n,,n=,r=", &client_nonce[..]].concat();
    protocol::sasl_first(&mut expected, b"SCRAM-SHA-256", &client_first).unwrap();
    assert_eq!(&written[..expected.len()], expected);
    let client_final = &written[expected.len()..];
    assert_eq!(client_final[0], b'p');
    let without_proof = [b"c=biws,r=", &client_nonce[..], b"server,p="].concat();
    assert!(client_final[5..].starts_with(&without_proof));
    assert_eq!(client_final.len(), 5 + without_proof.len() + 44);
}

#[test]
fn connect_refuses_a_server_that_does_not_know_the_password() {
    let stream = Scripted::with(&scram_script(b"secret", b"other", b"", b"n,,"));
    let config = Config::from_user_password_db(b"bob", b"secret", b"shop");
    let r = Executor::connect(&config, ExecutorBuffer::new(4), &mut Xorshift64::from(5), stream);
    assert_eq!(r.map(|_| ()), Err(Error::SaslVerificationFailed));
}

#[test]
fn connect_refuses_what_it_can_not_answer() {
    let config = Config::from_user_password_db(b"bob", b"secret", b"shop");
    let connect = |incoming: Vec<u8>| {
        Executor::connect(
            &config,
            ExecutorBuffer::new(4),
            &mut Xorshift64::from(5),
            Scripted::with(&incoming),
        )
        .map(|_| ())
    };
    assert_eq!(
        connect(msg(b'R', &[0, 0, 0, 11, b'i', b'=', b'1', b',', b'r', b'=', b',', b's', b'='])),
        Err(Error::UnexpectedDatabaseMessage { received: b'R' })
    );
    assert_eq!(
        connect([msg(b'R', &[0, 0, 0, 5, 1, 2, 3, 4]), msg(b'R', &[0, 0, 0, 5, 1, 2, 3, 4])].concat()),
        Err(Error::UnexpectedDatabaseMessage { received: b'R' })
    );
    assert_eq!(
        connect(msg(b'R', &[&[0, 0, 0, 10][..], b"OTHER\0\0"].concat())),
        Err(Error::UnexpectedDatabaseMessage { received: b'R' })
    );
    assert_eq!(
        connect(error(b"FATAL", b"28P01")),
        Err(Error::DatabaseError { is_fatal: true, code: *b"28P01" })
    );
    assert_eq!(connect(ready()), Err(Error::UnexpectedDatabaseMessage { received: b'Z' }));
    assert_eq!(
        connect([msg(b'R', &[0, 0, 0, 0]), msg(b'1', b"")].concat()),
        Err(Error::UnexpectedDatabaseMessage { received: b'1' })
    );
    assert_eq!(connect(Vec::new()), Err(Error::UnexpectedBufferState));
}

#[test]
fn connect_encrypted_binds_the_channel() {
    let end_point = [7u8; 32];
    let initial = Scripted::with(b"S");
    let upgraded =
        Scripted::with(&scram_script(b"secret", b"secret", &end_point, b"p=tls-server-end-point,,"));
    let config = Config::from_user_password_db(b"bob", b"secret", b"shop");
    let executor = Executor::connect_encrypted(
        &config,
        ExecutorBuffer::new(4),
        initial.clone(),
        &mut Xorshift64::from(5),
        |_| Ok(Encrypted(upgraded.clone(), Some(end_point.to_vec()))),
    )
    .unwrap();
    assert!(!executor.is_closed());
    assert_eq!(initial.take_outgoing(), [0, 0, 0, 8, 4, 210, 22, 47]);
    let written = upgraded.take_outgoing();
    let mechanism = b"SCRAM-SHA-256-PLUS\0";
    assert!(written.windows(mechanism.len()).any(|window| window == mechanism));
}

#[test]
fn connect_encrypted_needs_a_server_that_agrees() {
    let config = Config::from_user_password_db(b"bob", b"secret", b"shop");
    for answer in [&b"N"[..], b"E", b""] {
        let r = Executor::connect_encrypted(
            &config,
            ExecutorBuffer::new(4),
            Scripted::with(answer),
            &mut Xorshift64::from(5),
            |stream| Ok(Encrypted(stream, None)),
        );
        assert_eq!(r.map(|_| ()), Err(Error::ServerDoesNotSupportEncryption));
    }
    let r = Executor::connect_encrypted(
        &config,
        ExecutorBuffer::new(4),
        Scripted::with(b"S"),
        &mut Xorshift64::from(5),
        |_| Err::<Encrypted, Error>(Error::InvalidEndpointBinding),
    );
    assert_eq!(r.map(|_| ()), Err(Error::InvalidEndpointBinding));
}

#[test]
fn parts_go_in_and_come_out() {
    let stream = Scripted::with(b"x");
    let mut executor = executor(&stream, 3);
    executor.eb_mut().params_buffer.push(1);
    assert_eq!(executor.stream().0.borrow().incoming, b"x");
    let (eb, _) = executor.into_parts();
    assert_eq!(eb.params_buffer, [1]);
    assert_eq!(eb.stmts.capacity(), 3);
}

#[test]
fn terminate_closes_the_connection() {
    let stream = Scripted::default();
    let mut executor = executor(&stream, 8);
    assert_eq!(executor.terminate(), Ok(()));
    assert!(executor.is_closed());
    assert_eq!(stream.take_outgoing(), [b'X', 0, 0, 0, 4]);
    assert_eq!(executor.terminate(), Err(Error::ClosedConnection));
    assert!(stream.take_outgoing().is_empty());
    let failing = Scripted::default();
    failing.0.borrow_mut().fail_writes = true;
    let mut other = Executor::from_parts(ExecutorBuffer::new(1), failing);
    assert_eq!(other.terminate(), Err(Error::Io(ErrorKind::BrokenPipe)));
    assert!(other.is_closed());
}

#[test]
fn the_callback_sees_every_row_once_and_in_order() {
    let stream = Scripted::with(&prepared());
    stream.feed(
        &[
            msg(b'2', b""),
            data_row(&[Some(b"first")]),
            data_row(&[Some(b"second")]),
            data_row(&[Some(b"third")]),
            msg(b'C', b"SELECT 3\0"),
            ready(),
        ]
        .concat(),
    );
    let mut executor = executor(&stream, 8);
    let mut seen: Vec<Vec<u8>> = Vec::new();
    let records = executor
        .fetch_many_with_stmt("SELECT *", &[], |record| {
            seen.push(record.value(0).unwrap().to_vec());
            Ok(())
        })
        .unwrap();
    assert_eq!(records.len(), 3);
    assert_eq!(seen, [b"first".to_vec(), b"second".to_vec(), b"third".to_vec()]);
}

#[test]
fn the_failure_of_the_callback_is_handed_on() {
    let stream = Scripted::with(&prepared());
    stream.feed(
        &[
            msg(b'2', b""),
            data_row(&[Some(b"a")]),
            data_row(&[Some(b"b")]),
            data_row(&[Some(b"c")]),
            msg(b'C', b"SELECT 3\0"),
            ready(),
        ]
        .concat(),
    );
    let mut executor = executor(&stream, 8);
    let mut calls = 0;
    let r = executor
        .fetch_many_with_stmt("SELECT *", &[], |record| {
            calls += 1;
            if record.value(0) == Some(&b"b"[..]) {
                Err(Error::UnexpectedValueFromBytes)
            } else {
                Ok(())
            }
        })
        .map(|_| ());
    assert_eq!(r, Err(Error::UnexpectedValueFromBytes));
    assert_eq!(calls, 2);
    assert!(!executor.is_closed());
    assert!(stream.0.borrow().incoming.is_empty());
}

#[test]
fn the_callback_is_not_called_without_rows_or_after_a_failure() {
    let stream = Scripted::with(&prepared());
    stream.feed(&[msg(b'2', b""), msg(b'C', b"SELECT 0\0"), ready()].concat());
    let mut executor = executor(&stream, 8);
    let mut calls = 0;
    let records = executor
        .fetch_many_with_stmt("SELECT *", &[], |_| {
            calls += 1;
            Ok(())
        })
        .unwrap();
    assert_eq!(records.len(), 0);
    assert_eq!(calls, 0);
    stream.feed(&[msg(b'2', b""), data_row(&[Some(b"a")]), error(b"ERROR", b"22012"), ready()].concat());
    let mut calls = 0;
    let r = executor
        .fetch_many_with_stmt("SELECT *", &[], |_| {
            calls += 1;
            Ok(())
        })
        .map(|_| ());
    assert_eq!(r, Err(Error::DatabaseError { is_fatal: false, code: *b"22012" }));
    assert_eq!(calls, 0);
}

#[test]
fn a_bound_statement_takes_no_unrelated_message() {
    let stream = Scripted::with(&prepared());
    stream.feed(&[msg(b'2', b""), msg(b'S', b"a\0b\0"), ready()].concat());
    let mut status = executor(&stream, 8);
    assert_eq!(
        status.execute_with_stmt("SELECT 1", &[]),
        Err(Error::UnexpectedDatabaseMessage { received: b'S' })
    );
    assert!(status.is_closed());
    let stream = Scripted::with(&prepared());
    stream.feed(&[msg(b'2', b""), msg(b'A', b""), ready()].concat());
    let mut notification = executor(&stream, 8);
    assert_eq!(
        notification.execute_with_stmt("SELECT 1", &[]),
        Err(Error::UnexpectedDatabaseMessage { received: b'A' })
    );
    assert!(notification.is_closed());
}

#[test]
fn a_bound_statement_passes_over_warnings() {
    let stream = Scripted::with(&prepared());
    stream.feed(
        &[
            msg(b'2', b""),
            msg(b'N', b"SWARNING\0\0"),
            data_row(&[Some(b"a")]),
            msg(b'N', b"\0"),
            msg(b'C', b"SELECT 1\0"),
            ready(),
        ]
        .concat(),
    );
    let mut executor = executor(&stream, 8);
    let record = executor.fetch_with_stmt("SELECT 1", &[]).unwrap();
    assert_eq!(record.value(0), Some(&b"a"[..]));
}

#[test]
fn execute_with_stmt_tells_the_count_of_the_last_command() {
    let stream = Scripted::with(&prepared());
    stream.feed(
        &[msg(b'2', b""), msg(b'C', b"INSERT 0 2\0"), msg(b'C', b"UPDATE 7\0"), ready()].concat(),
    );
    let mut executor = executor(&stream, 8);
    assert_eq!(executor.execute_with_stmt("UPDATE t SET a = 1", &[]), Ok(7));
}

#[test]
fn only_the_agreeing_answer_lets_encryption_go_on() {
    assert_eq!(encryption_answer(b'S'), Ok(()));
    assert_eq!(encryption_answer(b'N'), Err(Error::ServerDoesNotSupportEncryption));
    assert_eq!(encryption_answer(0), Err(Error::ServerDoesNotSupportEncryption));
    assert_eq!(encryption_answer(b's'), Err(Error::ServerDoesNotSupportEncryption));
}

#[test]
fn preparing_again_keeps_the_statements_and_marks_the_last_use() {
    let stream = Scripted::with(&[prepared(), prepared()].concat());
    let mut executor = executor(&stream, 2);
    let a = executor.prepare("SELECT a").unwrap();
    let b = executor.prepare("SELECT b").unwrap();
    let reads = stream.reads();
    stream.take_outgoing();
    assert_eq!(executor.prepare("SELECT a"), Ok(a));
    assert_eq!(stream.reads(), reads);
    assert!(stream.take_outgoing().is_empty());
    assert_eq!(executor.eb_mut().stmts.len(), 2);
    assert_eq!(executor.eb_mut().stmts.least_recently_used(), Some(b));
}

#[test]
fn a_failed_preparation_takes_no_statement_in() {
    let stream = Scripted::with(&[error(b"ERROR", b"42601"), ready()].concat());
    let mut executor = executor(&stream, 2);
    assert_eq!(
        executor.prepare("SELEC"),
        Err(Error::DatabaseError { is_fatal: false, code: *b"42601" })
    );
    assert_eq!(executor.eb_mut().stmts.len(), 0);
    assert!(!executor.is_closed());
}

fn statement(id: u64) -> Statement {
    Statement { id, columns: Vec::new(), param_types: Vec::new() }
}

#[test]
fn room_is_made_only_in_a_full_cache() {
    let mut stream = Scripted::default();
    let mut is_closed = false;
    let mut nb = PartitionedFilledBuffer::new();
    let mut stmts = Statements::new(2);
    let mut out = vec![7];
    stmts.push(statement(11));
    assert_eq!(make_room(&mut is_closed, &mut nb, &mut stream, &mut stmts, &mut out), Ok(()));
    assert_eq!(stmts.len(), 1);
    assert_eq!(out, [7]);
    assert!(stream.take_outgoing().is_empty());
    assert_eq!(stream.reads(), 0);
    stmts.push(statement(22));
    stream.feed(&[msg(b'3', b""), ready()].concat());
    assert_eq!(make_room(&mut is_closed, &mut nb, &mut stream, &mut stmts, &mut out), Ok(()));
    let mut expected = Vec::new();
    protocol::close(&mut expected, b'S', b"11").unwrap();
    protocol::sync(&mut expected);
    assert_eq!(out, expected);
    assert_eq!(stream.take_outgoing(), expected);
    assert_eq!(stmts.len(), 1);
    assert_eq!(stmts.get(0).unwrap().id, 22);
}

#[test]
fn a_statement_stays_if_the_backend_does_not_let_it_go() {
    let mut stream = Scripted::with(&[error(b"ERROR", b"26000"), ready()].concat());
    let mut is_closed = false;
    let mut nb = PartitionedFilledBuffer::new();
    let mut stmts = Statements::new(1);
    let mut out = Vec::new();
    stmts.push(statement(11));
    assert_eq!(
        make_room(&mut is_closed, &mut nb, &mut stream, &mut stmts, &mut out),
        Err(Error::DatabaseError { is_fatal: false, code: *b"26000" })
    );
    assert_eq!(stmts.len(), 1);
    assert!(!is_closed);
}

#[test]
fn a_prepared_statement_is_what_the_backend_described() {
    let mut stream = Scripted::with(&[msg(b'N', b"\0"), prepared()].concat());
    let mut is_closed = false;
    let mut nb = PartitionedFilledBuffer::new();
    let mut stmts = Statements::new(2);
    let mut out = Vec::new();
    let id = prepare_statement(&mut is_closed, &mut nb, &mut stream, &mut stmts, &mut out, b"SELECT n")
        .unwrap();
    assert_eq!(id, fnv1a64(b"SELECT n"));
    assert_eq!(out, parse_describe_sync("SELECT n"));
    assert_eq!(stream.take_outgoing(), out);
    let held = stmts.get(0).unwrap();
    assert_eq!(held.id, id);
    assert_eq!(held.param_types, [23]);
    assert_eq!(held.columns.len(), 1);
    assert_eq!(held.columns[0].name, b"n");
    assert_eq!(held.columns[0].type_oid, 23);
}

#[test]
fn the_start_of_a_session_is_decided_message_by_message() {
    let ready_msg = Message { tag: b'Z', ty: MessageTy::ReadyForQuery };
    let key_msg = Message { tag: b'K', ty: MessageTy::BackendKeyData(7, 9) };
    let status = Message { tag: b'S', ty: MessageTy::ParameterStatus };
    let notice = Message { tag: b'N', ty: MessageTy::NoticeResponse };
    let row = Message { tag: b'D', ty: MessageTy::DataRow(0) };
    let failure = Message { tag: b'E', ty: MessageTy::ErrorResponse { is_fatal: true, code: *b"28000" } };
    assert_eq!(on_session_message(None, key_msg), (Some((7, 9)), None));
    assert_eq!(on_session_message(Some((1, 2)), key_msg), (Some((7, 9)), None));
    assert_eq!(on_session_message(Some((1, 2)), status), (Some((1, 2)), None));
    assert_eq!(on_session_message(None, notice), (None, None));
    assert_eq!(on_session_message(Some((1, 2)), ready_msg), (Some((1, 2)), Some(None)));
    assert_eq!(
        on_session_message(None, row),
        (None, Some(Some(Error::UnexpectedDatabaseMessage { received: b'D' })))
    );
    assert_eq!(
        on_session_message(None, failure),
        (None, Some(Some(Error::DatabaseError { is_fatal: true, code: *b"28000" })))
    );
}

#[test]
fn the_key_for_cancelling_is_the_one_that_the_server_gave() {
    let mut key = vec![0, 0, 0, 7];
    key.extend_from_slice(&[0, 0, 0, 9]);
    let mut stream = Scripted::with(
        &[msg(b'S', b"a\0b\0"), msg(b'K', &key), msg(b'N', b"\0"), ready(), ready()].concat(),
    );
    let mut is_closed = false;
    let mut nb = PartitionedFilledBuffer::new();
    assert_eq!(read_after_authentication_data(&mut is_closed, &mut nb, &mut stream), Ok(Some((7, 9))));
    assert!(!is_closed);
    let mut stream = Scripted::with(&data_row(&[]));
    assert_eq!(
        read_after_authentication_data(&mut is_closed, &mut nb, &mut stream),
        Err(Error::UnexpectedDatabaseMessage { received: b'D' })
    );
    assert!(is_closed);
}

#[test]
fn simple_queries_pass_over_warnings() {
    let stream = Scripted::with(
        &[msg(b'N', b"SWARNING\0\0"), msg(b'C', b"UPDATE 4\0"), msg(b'N', b"\0"), ready()].concat(),
    );
    let mut executor = executor(&stream, 8);
    assert_eq!(executor.execute("UPDATE t SET a = 1"), Ok(vec![4]));
}

#[test]
fn warnings_that_were_read_ahead_are_passed_over_without_the_stream() {
    let mut stream = Scripted::with(
        &[ready(), msg(b'N', b"\0"), msg(b'N', b"SWARNING\0\0"), msg(b'C', b"SELECT 1\0"), ready()]
            .concat(),
    );
    let mut is_closed = false;
    let mut nb = PartitionedFilledBuffer::new();
    nb.reserve(256).unwrap();
    nb.expand_buffer(256).unwrap();
    let first = fetch_msg_from_stream(&mut is_closed, &mut nb, &mut stream).unwrap();
    assert_eq!(first.ty, MessageTy::ReadyForQuery);
    let reads = stream.reads();
    assert!(stream.0.borrow().incoming.is_empty());
    let next = fetch_msg_from_stream(&mut is_closed, &mut nb, &mut stream).unwrap();
    assert_eq!(next.ty, MessageTy::CommandComplete(1));
    assert_eq!(stream.reads(), reads);
    let last = fetch_msg_from_stream(&mut is_closed, &mut nb, &mut stream).unwrap();
    assert_eq!(last.ty, MessageTy::ReadyForQuery);
    assert_eq!(stream.reads(), reads);
    assert!(!is_closed);
}

#[test]
fn each_request_has_its_place_in_the_exchange() {
    let challenge = Authentication::SaslContinue { iterations: 4096, payload: b"p", nonce: b"n", salt: b"s" };
    let verifier = Authentication::SaslFinal(b"v");
    let md5 = Authentication::Md5Password([1, 2, 3, 4]);
    let offer = Authentication::Sasl(b"SCRAM-SHA-256\0SCRAM-SHA-256-PLUS\0\0");
    assert_eq!(on_request(AuthStage::Start, &Authentication::Success, false), AuthStep::Done);
    assert_eq!(on_request(AuthStage::Start, &md5, false), AuthStep::ShowMd5);
    assert_eq!(
        on_request(AuthStage::Start, &offer, false),
        AuthStep::BeginSasl(ChannelBinding::Unsupported)
    );
    assert_eq!(
        on_request(AuthStage::Start, &offer, true),
        AuthStep::BeginSasl(ChannelBinding::TlsServerEndPoint)
    );
    assert_eq!(on_request(AuthStage::Start, &Authentication::Sasl(b"PLAIN\0\0"), true), AuthStep::Refuse);
    assert_eq!(on_request(AuthStage::Start, &challenge, false), AuthStep::Refuse);
    assert_eq!(on_request(AuthStage::Start, &verifier, false), AuthStep::Refuse);
    assert_eq!(on_request(AuthStage::Md5Shown, &Authentication::Success, false), AuthStep::Done);
    assert_eq!(on_request(AuthStage::Md5Shown, &md5, false), AuthStep::Refuse);
    assert_eq!(on_request(AuthStage::SaslBegun, &challenge, true), AuthStep::Answer);
    assert_eq!(on_request(AuthStage::SaslBegun, &Authentication::Success, true), AuthStep::Refuse);
    assert_eq!(on_request(AuthStage::SaslAnswered, &verifier, true), AuthStep::Verify);
    assert_eq!(on_request(AuthStage::SaslAnswered, &challenge, true), AuthStep::Refuse);
    assert_eq!(on_request(AuthStage::SaslVerified, &Authentication::Success, true), AuthStep::Done);
    assert_eq!(on_request(AuthStage::SaslVerified, &verifier, true), AuthStep::Refuse);
}

#[test]
fn only_an_authentication_request_is_awaited() {
    assert_eq!(on_awaited_request(Message { tag: b'R', ty: MessageTy::Authentication }), None);
    assert_eq!(
        on_awaited_request(Message {
            tag: b'E',
            ty: MessageTy::ErrorResponse { is_fatal: true, code: *b"28P01" },
        }),
        Some(Error::DatabaseError { is_fatal: true, code: *b"28P01" })
    );
    assert_eq!(
        on_awaited_request(Message { tag: b'Z', ty: MessageTy::ReadyForQuery }),
        Some(Error::UnexpectedDatabaseMessage { received: b'Z' })
    );
}

#[test]
fn the_length_of_a_message_counts_itself() {
    assert_eq!(whole_len(4), Ok(5));
    assert_eq!(whole_len(10), Ok(11));
    assert_eq!(whole_len(3), Err(Error::UnexpectedValueFromBytes));
    assert_eq!(whole_len(0), Err(Error::UnexpectedValueFromBytes));
}

#[test]
fn an_answer_that_was_read_ahead_asks_nothing_of_the_stream() {
    let mut key = vec![0, 0, 0, 1];
    key.extend_from_slice(&[0, 0, 0, 2]);
    let mut stream = Scripted::with(
        &[
            ready(),
            msg(b'C', b"UPDATE 2\0"),
            msg(b'C', b"DELETE 5\0"),
            ready(),
            msg(b'K', &key),
            ready(),
        ]
        .concat(),
    );
    let mut is_closed = false;
    let mut nb = PartitionedFilledBuffer::new();
    nb.reserve(256).unwrap();
    nb.expand_buffer(256).unwrap();
    assert_eq!(await_ready(&mut is_closed, &mut nb, &mut stream), Ok(vec![]));
    let reads = stream.reads();
    assert!(stream.0.borrow().incoming.is_empty());
    assert_eq!(await_ready(&mut is_closed, &mut nb, &mut stream), Ok(vec![2, 5]));
    assert_eq!(stream.reads(), reads);
    assert_eq!(read_after_authentication_data(&mut is_closed, &mut nb, &mut stream), Ok(Some((1, 2))));
    assert_eq!(stream.reads(), reads);
    assert!(!is_closed);
}
