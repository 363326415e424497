use wtx::database::client::postgres::record::parse_values;
use wtx::database::client::postgres::{Record, Records};
use wtx::Error;

#[test]
fn pg_data_row_with_zero_columns_is_a_valid_empty_record() {
    let mut vb = Vec::new();
    assert_eq!(parse_values(&[b'D', 0, 0, 0, 6, 0, 0], 7, 0, &mut vb), Ok(()));
    assert!(vb.is_empty());
    let record = Record::new(&[b'D', 0, 0, 0, 6, 0, 0], &vb);
    assert_eq!(record.len(), 0);
    assert_eq!(record.value(0), None);
    assert!(record.is_null(0));
}

#[test]
fn parse_values_finds_every_value() {
    let bytes = [9, 9, 0, 0, 0, 2, 10, 11, 255, 255, 255, 255, 0, 0, 0, 0, 0, 0, 0, 1, 12];
    let mut vb = vec![(true, 0..0)];
    assert_eq!(parse_values(&bytes, 2, 4, &mut vb), Ok(()));
    assert_eq!(vb, [(true, 0..0), (false, 6..8), (true, 12..12), (false, 16..16), (false, 20..21)]);
    let record = Record::new(&bytes, &vb[1..]);
    assert_eq!(record.len(), 4);
    assert_eq!(record.value(0), Some(&[10, 11][..]));
    assert_eq!(record.value(1), None);
    assert!(record.is_null(1));
    assert_eq!(record.value(2), Some(&[][..]));
    assert!(!record.is_null(2));
    assert_eq!(record.value(3), Some(&[12][..]));
    assert_eq!(record.value(4), None);
}

#[test]
fn parse_values_refuses_rows_that_end_too_early() {
    let bytes = [0, 0, 0, 1, 7, 0, 0, 0, 2, 8];
    let mut vb = vec![(false, 1..2)];
    assert_eq!(parse_values(&bytes, 0, 2, &mut vb), Err(Error::UnexpectedValueFromBytes));
    assert_eq!(vb, [(false, 1..2)]);
    assert_eq!(parse_values(&bytes, 0, 1, &mut vb), Ok(()));
    assert_eq!(parse_values(&bytes, 8, 1, &mut vb), Err(Error::UnexpectedValueFromBytes));
    assert_eq!(parse_values(&bytes, 10, 1, &mut vb), Err(Error::UnexpectedValueFromBytes));
    assert_eq!(vb.len(), 2);
}

#[test]
fn records_cut_the_values_into_rows() {
    let bytes = [1, 2, 3, 4];
    let vb = [(false, 0..1), (false, 1..3), (true, 3..3), (false, 3..4)];
    let rb = [2, 2, 4];
    let records = Records::new(&bytes, &rb, &vb);
    assert_eq!(records.len(), 3);
    let first = records.get(0).unwrap();
    assert_eq!(first.len(), 2);
    assert_eq!(first.value(1), Some(&[2, 3][..]));
    assert_eq!(records.get(1).unwrap().len(), 0);
    let last = records.get(2).unwrap();
    assert_eq!(last.value(0), None);
    assert_eq!(last.value(1), Some(&[4][..]));
    assert!(records.get(3).is_none());
}
