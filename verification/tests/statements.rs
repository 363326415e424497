use wtx::database::client::postgres::statements::{
    fnv1a64, parse_columns, parse_param_types, u64_to_decimal,
};
use wtx::database::client::postgres::{Column, Statement, Statements};
use wtx::Error;

fn stmt(id: u64) -> Statement {
    Statement { id, columns: Vec::new(), param_types: vec![id as u32] }
}

fn ids(stmts: &Statements) -> Vec<u64> {
    (0..stmts.len()).map(|idx| stmts.get(idx).unwrap().id).collect()
}

#[test]
fn fnv1a64_of_known_inputs() {
    assert_eq!(fnv1a64(b""), 0xcbf2_9ce4_8422_2325);
    assert_eq!(fnv1a64(b"a"), 0xaf63_dc4c_8601_ec8c);
    assert_eq!(fnv1a64(b"foobar"), 0x8594_4171_f739_67e8);
}

#[test]
fn u64_to_decimal_spells_every_digit() {
    assert_eq!(u64_to_decimal(0), b"0");
    assert_eq!(u64_to_decimal(7), b"7");
    assert_eq!(u64_to_decimal(10), b"10");
    assert_eq!(u64_to_decimal(1234567890), b"1234567890");
    assert_eq!(u64_to_decimal(u64::MAX), b"18446744073709551615");
}

#[test]
fn cache_holds_at_least_one_statement() {
    let stmts = Statements::new(0);
    assert_eq!(stmts.capacity(), 1);
    assert_eq!(Statements::new(3).capacity(), 3);
}

#[test]
fn cache_never_grows_beyond_its_capacity() {
    let mut stmts = Statements::new(2);
    assert!(stmts.push(stmt(1)).is_none());
    assert!(!stmts.is_full());
    assert!(stmts.push(stmt(2)).is_none());
    assert!(stmts.is_full());
    assert_eq!(stmts.push(stmt(3)), Some(stmt(3)));
    assert_eq!(stmts.len(), 2);
    assert_eq!(ids(&stmts), [1, 2]);
}

#[test]
fn cache_holds_no_identifier_twice() {
    let mut stmts = Statements::new(3);
    assert!(stmts.push(stmt(1)).is_none());
    assert_eq!(stmts.push(stmt(1)), Some(stmt(1)));
    assert_eq!(stmts.len(), 1);
}

#[test]
fn touch_moves_to_the_most_recently_used_end() {
    let mut stmts = Statements::new(3);
    stmts.push(stmt(1));
    stmts.push(stmt(2));
    stmts.push(stmt(3));
    assert_eq!(stmts.least_recently_used(), Some(1));
    assert!(stmts.touch(1));
    assert_eq!(ids(&stmts), [2, 3, 1]);
    assert_eq!(stmts.least_recently_used(), Some(2));
    assert!(!stmts.touch(9));
    assert_eq!(ids(&stmts), [2, 3, 1]);
    assert!(stmts.touch(1));
    assert_eq!(ids(&stmts), [2, 3, 1]);
}

#[test]
fn evict_lets_the_least_recently_used_go() {
    let mut stmts = Statements::new(2);
    assert_eq!(stmts.evict(), None);
    stmts.push(stmt(5));
    stmts.push(stmt(6));
    stmts.touch(5);
    assert_eq!(stmts.evict(), Some(6));
    assert_eq!(ids(&stmts), [5]);
    assert_eq!(stmts.position(5), Some(0));
    assert_eq!(stmts.position(6), None);
    assert!(stmts.get(1).is_none());
    stmts.clear();
    assert_eq!(stmts.len(), 0);
    assert_eq!(stmts.capacity(), 2);
}

#[test]
fn parse_columns_reads_names_and_types() {
    let mut bytes = b"id\0".to_vec();
    bytes.extend_from_slice(&[0, 0, 0, 1, 0, 2, 0, 0, 0, 23, 0, 4, 255, 255, 255, 255, 0, 1]);
    bytes.extend_from_slice(b"\0");
    bytes.extend_from_slice(&[0, 0, 0, 0, 0, 0, 0, 0, 4, 19, 255, 255, 0, 0, 0, 0, 0, 0]);
    assert_eq!(
        parse_columns(&bytes, 2),
        Ok(vec![
            Column { name: b"id".to_vec(), type_oid: 23 },
            Column { name: Vec::new(), type_oid: 1043 },
        ])
    );
    assert_eq!(parse_columns(&bytes, 1).unwrap().len(), 1);
    assert_eq!(parse_columns(&bytes, 0), Ok(Vec::new()));
    assert_eq!(parse_columns(&bytes, 3), Err(Error::UnexpectedValueFromBytes));
    assert_eq!(parse_columns(&bytes[..20], 1), Err(Error::UnexpectedValueFromBytes));
}

#[test]
fn parse_param_types_reads_four_bytes_each() {
    let bytes = [0, 0, 0, 23, 0, 0, 4, 19, 9];
    assert_eq!(parse_param_types(&bytes, 2), Ok(vec![23, 1043]));
    assert_eq!(parse_param_types(&bytes, 0), Ok(Vec::new()));
    assert_eq!(parse_param_types(&bytes, 3), Err(Error::UnexpectedValueFromBytes));
}
