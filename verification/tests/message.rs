use wtx::database::client::postgres::protocol;
use wtx::database::client::postgres::{Config, MessageTy};
use wtx::Error;

fn msg(tag: u8, body: &[u8]) -> Vec<u8> {
    let mut bytes = vec![tag];
    bytes.extend_from_slice(&(body.len() as u32 + 4).to_be_bytes());
    bytes.extend_from_slice(body);
    bytes
}

#[test]
fn messages_without_a_body_are_told_by_their_tag() {
    assert_eq!(MessageTy::try_from(&msg(b'1', b"")), Ok(MessageTy::ParseComplete));
    assert_eq!(MessageTy::try_from(&msg(b'2', b"")), Ok(MessageTy::BindComplete));
    assert_eq!(MessageTy::try_from(&msg(b'3', b"")), Ok(MessageTy::CloseComplete));
    assert_eq!(MessageTy::try_from(&msg(b'A', b"")), Ok(MessageTy::NotificationResponse));
    assert_eq!(MessageTy::try_from(&msg(b'G', b"")), Ok(MessageTy::CopyInResponse));
    assert_eq!(MessageTy::try_from(&msg(b'H', b"")), Ok(MessageTy::CopyOutResponse));
    assert_eq!(MessageTy::try_from(&msg(b'I', b"")), Ok(MessageTy::EmptyQueryResponse));
    assert_eq!(MessageTy::try_from(&msg(b'N', b"x")), Ok(MessageTy::NoticeResponse));
    assert_eq!(MessageTy::try_from(&msg(b'R', b"\0\0\0\0")), Ok(MessageTy::Authentication));
    assert_eq!(MessageTy::try_from(&msg(b'S', b"a\0b\0")), Ok(MessageTy::ParameterStatus));
    assert_eq!(MessageTy::try_from(&msg(b'Z', b"I")), Ok(MessageTy::ReadyForQuery));
    assert_eq!(MessageTy::try_from(&msg(b'c', b"")), Ok(MessageTy::CopyDone));
    assert_eq!(MessageTy::try_from(&msg(b'd', b"")), Ok(MessageTy::CopyData));
    assert_eq!(MessageTy::try_from(&msg(b'n', b"")), Ok(MessageTy::NoData));
    assert_eq!(MessageTy::try_from(&msg(b's', b"")), Ok(MessageTy::PortalSuspended));
}

#[test]
fn unknown_or_truncated_messages_are_refused() {
    assert_eq!(MessageTy::try_from(&[]), Err(Error::UnexpectedValueFromBytes));
    assert_eq!(MessageTy::try_from(&msg(b'?', b"")), Err(Error::UnexpectedValueFromBytes));
    assert_eq!(MessageTy::try_from(&[b'C', 0, 0]), Err(Error::UnexpectedValueFromBytes));
    assert_eq!(MessageTy::try_from(&msg(b'D', b"\0")), Err(Error::UnexpectedValueFromBytes));
    assert_eq!(MessageTy::try_from(&msg(b'Z', b"")), Err(Error::UnexpectedValueFromBytes));
    assert_eq!(MessageTy::try_from(&msg(b'Z', b"II")), Err(Error::UnexpectedValueFromBytes));
    assert_eq!(MessageTy::try_from(&msg(b'K', b"1234567")), Err(Error::UnexpectedValueFromBytes));
}

#[test]
fn command_complete_reads_the_number_behind_the_last_blank() {
    let rows = |tag: &[u8]| MessageTy::try_from(&msg(b'C', tag));
    assert_eq!(rows(b"INSERT 0 5\0"), Ok(MessageTy::CommandComplete(5)));
    assert_eq!(rows(b"SELECT 1234\0"), Ok(MessageTy::CommandComplete(1234)));
    assert_eq!(rows(b"UPDATE 0\0"), Ok(MessageTy::CommandComplete(0)));
    assert_eq!(rows(b"BEGIN\0"), Ok(MessageTy::CommandComplete(0)));
    assert_eq!(rows(b"CREATE TABLE\0"), Ok(MessageTy::CommandComplete(0)));
    assert_eq!(rows(b""), Ok(MessageTy::CommandComplete(0)));
    assert_eq!(rows(b"\0"), Ok(MessageTy::CommandComplete(0)));
    assert_eq!(rows(b"DELETE 7 \0"), Ok(MessageTy::CommandComplete(0)));
    assert_eq!(
        rows(b"COPY 999999999999999999\0"),
        Ok(MessageTy::CommandComplete(999_999_999_999_999_999))
    );
    assert_eq!(rows(b"COPY 1000000000000000000\0"), Ok(MessageTy::CommandComplete(0)));
}

#[test]
fn counts_and_keys_are_read_most_significant_byte_first() {
    assert_eq!(MessageTy::try_from(&msg(b'D', &[1, 2])), Ok(MessageTy::DataRow(258)));
    assert_eq!(MessageTy::try_from(&msg(b'D', &[0, 0])), Ok(MessageTy::DataRow(0)));
    assert_eq!(MessageTy::try_from(&msg(b'T', &[0, 3, 9])), Ok(MessageTy::RowDescription(3)));
    assert_eq!(
        MessageTy::try_from(&msg(b't', &[255, 255])),
        Ok(MessageTy::ParameterDescription(65535))
    );
    assert_eq!(
        MessageTy::try_from(&msg(b'K', &[0, 0, 1, 0, 255, 255, 255, 254])),
        Ok(MessageTy::BackendKeyData(256, 4294967294))
    );
}

#[test]
fn error_response_reads_severity_and_code() {
    let parse = |fields: &[u8]| MessageTy::try_from(&msg(b'E', fields));
    assert_eq!(
        parse(b"SERROR\0VERROR\0C42601\0Msyntax error\0\0"),
        Ok(MessageTy::ErrorResponse { is_fatal: false, code: *b"42601" })
    );
    assert_eq!(
        parse(b"SFATAL\0C57P01\0Mterminating\0\0"),
        Ok(MessageTy::ErrorResponse { is_fatal: true, code: *b"57P01" })
    );
    assert_eq!(
        parse(b"SFEHLER\0VPANIC\0CXX000\0\0"),
        Ok(MessageTy::ErrorResponse { is_fatal: true, code: *b"XX000" })
    );
    assert_eq!(
        parse(b"MC=x\0C23505\0SERROR\0\0"),
        Ok(MessageTy::ErrorResponse { is_fatal: false, code: *b"23505" })
    );
    assert_eq!(parse(b"SERROR\0C4260\0\0"), Err(Error::UnexpectedValueFromBytes));
    assert_eq!(parse(b"SERROR\0\0C42601\0\0"), Err(Error::UnexpectedValueFromBytes));
    assert_eq!(parse(b"C42601\0\0"), Err(Error::UnexpectedValueFromBytes));
    assert_eq!(parse(b"SERROR\0C42601"), Err(Error::UnexpectedValueFromBytes));
    assert_eq!(parse(b""), Err(Error::UnexpectedValueFromBytes));
}

#[test]
fn sync_and_terminate_are_five_bytes() {
    let mut out = vec![1];
    protocol::sync(&mut out);
    assert_eq!(out, [1, b'S', 0, 0, 0, 4]);
    out.clear();
    protocol::terminate(&mut out);
    assert_eq!(out, [b'X', 0, 0, 0, 4]);
}

#[test]
fn query_closes_the_command_with_a_zero_byte() {
    let mut out = Vec::new();
    protocol::query(&mut out, b"BEGIN").unwrap();
    assert_eq!(out, b"Q\0\0\0\x0aBEGIN\0");
}

#[test]
fn parse_counts_and_lists_the_types() {
    let mut out = Vec::new();
    protocol::parse(&mut out, b"s1", b"SELECT $1", &[23, 0x0102_0304]).unwrap();
    assert_eq!(out, b"P\0\0\0\x1bs1\0SELECT $1\0\0\x02\0\0\0\x17\x01\x02\x03\x04");
    out.clear();
    protocol::parse(&mut out, b"", b"", &[]).unwrap();
    assert_eq!(out, b"P\0\0\0\x08\0\0\0\0");
}

#[test]
fn parse_refuses_more_types_than_can_be_counted() {
    let mut out = vec![7];
    let types = vec![0u32; 65536];
    assert_eq!(protocol::parse(&mut out, b"", b"", &types), Err(Error::CapacityOverflow));
    assert_eq!(out, [7]);
}

#[test]
fn describe_and_close_name_the_statement() {
    let mut out = Vec::new();
    protocol::describe(&mut out, b'S', b"42").unwrap();
    assert_eq!(out, b"D\0\0\0\x08S42\0");
    out.clear();
    protocol::close(&mut out, b'S', b"42").unwrap();
    assert_eq!(out, b"C\0\0\0\x08S42\0");
}

#[test]
fn execute_names_the_portal_and_the_row_limit() {
    let mut out = Vec::new();
    protocol::execute(&mut out, b"", 0).unwrap();
    assert_eq!(out, b"E\0\0\0\x09\0\0\0\0\0");
    out.clear();
    protocol::execute(&mut out, b"p", 258).unwrap();
    assert_eq!(out, b"E\0\0\0\x0ap\0\0\0\x01\x02");
}

#[test]
fn bind_sends_values_in_binary_and_marks_missing_ones() {
    let mut out = Vec::new();
    protocol::bind(&mut out, b"", b"7", &[Some(&[0, 0, 0, 1][..]), None, Some(&[][..])]).unwrap();
    let mut expected = b"B\0\0\0\x21\x007\0\0\x01\0\x01\0\x03".to_vec();
    expected.extend_from_slice(&[0, 0, 0, 4, 0, 0, 0, 1]);
    expected.extend_from_slice(&[255, 255, 255, 255]);
    expected.extend_from_slice(&[0, 0, 0, 0]);
    expected.extend_from_slice(&[0, 1, 0, 1]);
    assert_eq!(out, expected);
}

#[test]
fn encrypted_conn_is_the_magic_number() {
    let mut out = Vec::new();
    protocol::encrypted_conn(&mut out);
    assert_eq!(out, [0, 0, 0, 8, 4, 210, 22, 47]);
}

#[test]
fn initial_conn_msg_lists_user_and_database() {
    let mut out = Vec::new();
    let config = Config::from_user_password_db(b"bob", b"secret", b"shop");
    protocol::initial_conn_msg(&mut out, &config).unwrap();
    assert_eq!(out, b"\0\0\0\x20\0\x03\0\0user\0bob\0database\0shop\0\0");
    out.clear();
    let named = Config { app_name: b"app", ..config };
    protocol::initial_conn_msg(&mut out, &named).unwrap();
    assert_eq!(out, b"\0\0\0\x35\0\x03\0\0user\0bob\0database\0shop\0application_name\0app\0\0");
}

#[test]
fn sasl_messages_carry_the_mechanism_and_the_data() {
    let mut out = Vec::new();
    protocol::sasl_first(&mut out, b"SCRAM-SHA-256", b"n,,n=,r=abc").unwrap();
    assert_eq!(out, b"p\0\0\0\x21SCRAM-SHA-256\0\0\0\0\x0bn,,n=,r=abc");
    out.clear();
    protocol::sasl_second(&mut out, b"c=biws").unwrap();
    assert_eq!(out, b"p\0\0\0\x0ac=biws");
}

#[test]
fn write_message_counts_the_length_field() {
    let mut out = Vec::new();
    protocol::write_message(&mut out, b'x', &[1, 2, 3]).unwrap();
    assert_eq!(out, [b'x', 0, 0, 0, 7, 1, 2, 3]);
    out.clear();
    protocol::write_untagged(&mut out, &[1]).unwrap();
    assert_eq!(out, [0, 0, 0, 5, 1]);
}
