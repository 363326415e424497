use wtx::http::{Header, Headers, Trailers};
use wtx::Error;

fn header<'a>(name: &'a [u8], value: &'a [&'a [u8]], is_trailer: bool) -> Header<'a, &'a [&'a [u8]]> {
    Header { is_sensitive: false, is_trailer, name, value }
}

#[test]
fn clear_erases_everything() {
    let mut headers = Headers::new();
    headers.push_from_iter(Header::from_name_and_value(b"name", &["value".as_bytes()][..])).unwrap();
    assert_eq!(headers.bytes_len(), 9);
    assert_eq!(headers.headers_len(), 1);
    headers.clear();
    assert_eq!(headers.bytes_len(), 0);
    assert_eq!(headers.headers_len(), 0);
    assert_eq!(headers.trailers(), Trailers::Absent);
}

#[test]
fn get_many_by_name_finds_first_of_each() {
    let mut headers = Headers::new();
    headers.push_from_iter(Header::from_name_and_value(b"name0", &[][..])).unwrap();
    let array = headers.get_many_by_name(["name0".as_bytes(), "name1".as_bytes()]);
    assert!(array[0].is_some());
    assert!(array[1].is_none());
}

#[test]
fn get_many_by_name_follows_the_order_of_the_names() {
    let mut headers = Headers::new();
    headers.push_from_iter(header(b"a", &[b"1"], false)).unwrap();
    headers.push_from_iter(header(b"b", &[b"2"], false)).unwrap();
    headers.push_from_iter(header(b"a", &[b"3"], false)).unwrap();
    let [b, c, a] = headers.get_many_by_name(["b".as_bytes(), "c".as_bytes(), "a".as_bytes()]);
    assert_eq!(b.unwrap().value, b"2");
    assert!(c.is_none());
    assert_eq!(a.unwrap().value, b"1");
}

#[test]
fn pop_removes_the_last_header() {
    let mut headers = Headers::new();
    headers.push_from_iter(Header::from_name_and_value(b"name", &["value".as_bytes()][..])).unwrap();
    assert_eq!(headers.bytes_len(), 9);
    assert_eq!(headers.headers_len(), 1);
    let _ = headers.pop();
    assert_eq!(headers.bytes_len(), 0);
    assert_eq!(headers.headers_len(), 0);
}

#[test]
fn pop_on_empty_returns_false_and_changes_nothing() {
    let mut headers = Headers::new();
    assert!(!headers.pop());
    assert_eq!(headers.bytes_len(), 0);
    assert_eq!(headers.headers_len(), 0);
    assert_eq!(headers.trailers(), Trailers::Absent);
    assert!(headers.iter().is_empty());
}

#[test]
fn pop_keeps_the_record_of_trailers() {
    let mut headers = Headers::new();
    headers.push_from_iter(header(b"h1", &[b"data"], false)).unwrap();
    headers.push_from_iter(header(b"h2", &[], true)).unwrap();
    assert_eq!(headers.trailers(), Trailers::Tail(1));
    assert!(headers.pop());
    assert_eq!(headers.trailers(), Trailers::Tail(1));
    assert_eq!(headers.headers_len(), 1);
    assert_eq!(headers.bytes_len(), 6);
}

#[test]
fn push_from_iter_joins_the_slices() {
    let mut headers = Headers::new();
    headers
        .push_from_iter(Header::from_name_and_value(
            b"name",
            &["value0".as_bytes(), "_value1".as_bytes()][..],
        ))
        .unwrap();
    assert_eq!(
        headers.get_by_idx(0).unwrap(),
        Header::from_name_and_value(b"name", "value0_value1".as_bytes())
    );
}

#[test]
fn push_then_get_by_name_yields_the_same_bytes() {
    let mut headers = Headers::new();
    headers.push_from_iter(header(b"content-type", &[b"text/", b"plain"], false)).unwrap();
    headers.push_from_iter(header(b"content-length", &[b"12"], false)).unwrap();
    let found = headers.get_by_name(b"content-length").unwrap();
    assert_eq!(found.name, b"content-length");
    assert_eq!(found.value, b"12");
    assert!(!found.is_sensitive);
    assert!(!found.is_trailer);
    assert_eq!(headers.get_by_name(b"content-type").unwrap().value, b"text/plain");
    assert!(headers.get_by_name(b"content").is_none());
}

#[test]
fn get_by_name_prefers_the_oldest_header() {
    let mut headers = Headers::new();
    headers.push_from_iter(header(b"set-cookie", &[b"a=1"], false)).unwrap();
    headers.push_from_iter(header(b"set-cookie", &[b"b=2"], false)).unwrap();
    assert_eq!(headers.get_by_name(b"set-cookie").unwrap().value, b"a=1");
}

#[test]
fn get_by_idx_is_bounded_by_the_number_of_headers() {
    let mut headers = Headers::new();
    headers.push_from_iter(header(b"a", &[b"1"], false)).unwrap();
    assert!(headers.get_by_idx(0).is_some());
    assert!(headers.get_by_idx(1).is_none());
    assert!(headers.get_by_idx(usize::MAX).is_none());
}

#[test]
fn iter_counts_as_many_as_headers_len() {
    let mut headers = Headers::new();
    headers.push_from_iter(header(b"a", &[b"1", b"23"], false)).unwrap();
    headers.push_from_iter(header(b"bc", &[], true)).unwrap();
    headers.push_from_iter(header(b"", &[b"456"], false)).unwrap();
    let all = headers.iter();
    assert_eq!(all.len(), headers.headers_len());
    let sum: usize = all.iter().map(|el| el.name.len() + el.value.len()).sum();
    assert_eq!(sum, headers.bytes_len());
    assert_eq!(sum, 9);
    assert_eq!(all[0].value, b"123");
    assert_eq!(all[1].name, b"bc");
    assert!(all[1].is_trailer);
    assert_eq!(all[2].name, b"");
}

#[test]
fn trailers_without_any_trailer() {
    let mut headers = Headers::new();
    headers.push_from_iter(header(b"h1", &[b"data"], false)).unwrap();
    headers.push_from_iter(header(b"h2", &[b"data"], false)).unwrap();
    assert_eq!(headers.trailers(), Trailers::Absent);
    assert!(!headers.trailers().has_any());
}

#[test]
fn trailers_tail_starts_at_the_first_trailer() {
    let mut headers = Headers::new();
    headers.push_from_iter(header(b"h1", &[b"data"], false)).unwrap();
    headers.push_from_iter(header(b"h2", &[b"data"], false)).unwrap();
    headers.push_from_iter(header(b"h3", &[], true)).unwrap();
    headers.push_from_iter(header(b"h4", &[], true)).unwrap();
    assert_eq!(headers.trailers(), Trailers::Tail(2));
    assert!(headers.trailers().has_any());
}

#[test]
fn headers_trailer_promotion() {
    let mut headers = Headers::new();
    headers.push_from_iter(header(b"h1", &[b"data"], false)).unwrap();
    assert_eq!(headers.trailers(), Trailers::Absent);
    headers.push_from_iter(header(b"h2", &[], true)).unwrap();
    assert_eq!(headers.trailers(), Trailers::Tail(1));
    headers.push_from_iter(header(b"h3", &[], false)).unwrap();
    assert_eq!(headers.trailers(), Trailers::Mixed);
    assert!(headers.trailers().has_any());
    headers.push_from_iter(header(b"h4", &[], true)).unwrap();
    assert_eq!(headers.trailers(), Trailers::Mixed);
}

#[test]
fn manage_trailers_follows_the_transition_rules() {
    let mut trailers = Trailers::Absent;
    Headers::manage_trailers(false, 0, &mut trailers);
    assert_eq!(trailers, Trailers::Absent);
    Headers::manage_trailers(true, 1, &mut trailers);
    assert_eq!(trailers, Trailers::Tail(1));
    Headers::manage_trailers(true, 2, &mut trailers);
    assert_eq!(trailers, Trailers::Tail(1));
    Headers::manage_trailers(false, 3, &mut trailers);
    assert_eq!(trailers, Trailers::Mixed);
    Headers::manage_trailers(true, 4, &mut trailers);
    assert_eq!(trailers, Trailers::Mixed);
}

#[test]
fn push_from_iter_many_pushes_in_order() {
    let mut headers = Headers::with_capacity(16, 2).unwrap();
    headers
        .push_from_iter_many([header(b"a", &[b"1"], false), header(b"b", &[b"2", b"3"], true)])
        .unwrap();
    assert_eq!(headers.headers_len(), 2);
    assert_eq!(headers.bytes_len(), 5);
    assert_eq!(headers.get_by_idx(0).unwrap().value, b"1");
    assert_eq!(headers.get_by_idx(1).unwrap().value, b"23");
    assert_eq!(headers.trailers(), Trailers::Tail(1));
}

#[test]
fn push_reserved_hands_a_refusal_back() {
    let mut headers = Headers::new();
    headers.push_from_iter(header(b"a", &[b"1"], false)).unwrap();
    let rslt = headers.push_reserved(header(b"b", &[b"2"], true), Err(Error::AllocationError));
    assert_eq!(rslt, Err(Error::AllocationError));
    assert_eq!(headers.headers_len(), 1);
    assert_eq!(headers.bytes_len(), 2);
    assert_eq!(headers.trailers(), Trailers::Absent);
    assert_eq!(headers.push_reserved(header(b"b", &[b"2"], true), Ok(())), Ok(()));
    assert_eq!(headers.headers_len(), 2);
    assert_eq!(headers.get_by_name(b"b").unwrap().value, b"2");
}

#[test]
fn header_len_adds_name_and_values() {
    assert_eq!(Headers::header_len(b"name", &[b"ab", b"", b"cde"]), Some(9));
    assert_eq!(Headers::header_len(b"", &[]), Some(0));
}

#[test]
fn reserve_changes_nothing_that_can_be_seen() {
    let mut headers = Headers::default();
    headers.push_from_iter(header(b"a", &[b"1"], false)).unwrap();
    headers.reserve(1024, 8).unwrap();
    assert_eq!(headers.headers_len(), 1);
    assert_eq!(headers.bytes_len(), 2);
    assert_eq!(headers.get_by_idx(0).unwrap().name, b"a");
}

#[test]
fn from_name_and_value_clears_both_flags() {
    let header = Header::from_name_and_value(b"n", 1u8);
    assert!(!header.is_sensitive);
    assert!(!header.is_trailer);
    assert_eq!(header.name, b"n");
    assert_eq!(header.value, 1);
}

#[test]
fn push_formatted_pushes_the_value_that_the_formatting_gave() {
    let mut headers = Headers::new();
    let value = format!("{}-{}", 12, "ab");
    headers
        .push_formatted(Header {
            is_sensitive: false,
            is_trailer: false,
            name: b"range",
            value: Some(value.as_bytes()),
        })
        .unwrap();
    assert_eq!(headers.headers_len(), 1);
    assert_eq!(headers.get_by_name(b"range").unwrap().value, b"12-ab");
    assert_eq!(headers.bytes_len(), 10);
}

#[test]
fn push_formatted_without_a_value_is_a_format_error() {
    let mut headers = Headers::new();
    headers.push_from_iter(header(b"a", &[b"1"], false)).unwrap();
    assert_eq!(
        headers.push_formatted(Header {
            is_sensitive: false,
            is_trailer: true,
            name: b"b",
            value: None,
        }),
        Err(Error::FormatError)
    );
    assert_eq!(headers.headers_len(), 1);
    assert_eq!(headers.bytes_len(), 2);
    assert_eq!(headers.trailers(), Trailers::Absent);
}
