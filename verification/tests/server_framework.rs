use wtx::data_transformation::dnsn::SerdeJson;
use wtx::http::server_framework::param_wrappers::manage_path;
use wtx::http::server_framework::Redirect;
use wtx::http::{Header, Headers, ReqResBuffer, StatusCode};
use wtx::misc::{Lease, LeaseMut};
use wtx::Error;

#[test]
fn permanent_redirect() {
    let mut rrb = ReqResBuffer::empty();
    rrb.data.extend_from_slice(b"request body");
    rrb.headers.push_from_iter(Header::from_name_and_value(b"accept", &[&b"*/*"[..]][..])).unwrap();
    let status_code = Redirect::permanent("/some/path").finalize_response(&mut rrb).unwrap();
    assert_eq!(status_code, StatusCode::PermanentRedirect);
    assert_eq!(status_code.as_u16(), 308);
    assert!(rrb.data.is_empty());
    assert_eq!(rrb.headers.headers_len(), 1);
    assert_eq!(
        rrb.headers.get_by_name(b"location").unwrap(),
        Header::from_name_and_value(b"location", "/some/path".as_bytes())
    );
}

#[test]
fn temporary_redirect() {
    let mut rrb = ReqResBuffer::empty();
    let status_code = Redirect::temporary("/another/path").finalize_response(&mut rrb).unwrap();
    assert_eq!(status_code.as_u16(), 307);
    assert_eq!(rrb.headers.get_by_idx(0).unwrap().value, b"/another/path");
    let other = Redirect::new(StatusCode::SeeOther, "/x").finalize_response(&mut rrb).unwrap();
    assert_eq!(other.as_u16(), 303);
    assert_eq!(rrb.headers.headers_len(), 1);
    assert_eq!(rrb.headers.get_by_idx(0).unwrap().value, b"/x");
}

#[test]
fn raw_redirects_keep_the_other_headers() {
    let mut headers = Headers::new();
    headers.push_from_iter(Header::from_name_and_value(b"a", &[&b"1"[..]][..])).unwrap();
    assert_eq!(Redirect::temporary_raw(&mut headers, "/another/path"), Ok(StatusCode::TemporaryRedirect));
    assert_eq!(Redirect::permanent_raw(&mut headers, "/p"), Ok(StatusCode::PermanentRedirect));
    assert_eq!(headers.headers_len(), 3);
    assert_eq!(headers.get_by_name(b"location").unwrap().value, b"/another/path");
    assert_eq!(headers.get_by_idx(2).unwrap().value, b"/p");
}

#[test]
fn status_codes_and_their_numbers() {
    for (status_code, number) in [
        (StatusCode::Created, 201),
        (StatusCode::Accepted, 202),
        (StatusCode::NoContent, 204),
        (StatusCode::MovedPermanently, 301),
        (StatusCode::Found, 302),
        (StatusCode::SeeOther, 303),
        (StatusCode::TemporaryRedirect, 307),
        (StatusCode::PermanentRedirect, 308),
        (StatusCode::BadRequest, 400),
        (StatusCode::Unauthorized, 401),
        (StatusCode::Forbidden, 403),
        (StatusCode::NotFound, 404),
        (StatusCode::InternalServerError, 500),
    ] {
        assert_eq!(status_code.as_u16(), number);
        assert_eq!(status_code.is_redirection(), (300..400).contains(&number));
    }
}

#[test]
fn manage_path_finds_what_the_placeholder_stands_for() {
    assert_eq!(manage_path((0, &[("/{id}", 0)]), b"/x42"), Ok(&b"42"[..]));
    assert_eq!(manage_path((0, &[("/user", 0), ("/{id}", 0)]), b"/user/x42"), Ok(&b"42"[..]));
    assert_eq!(manage_path((0, &[("/a/b/{id}", 0)]), b"/a/b42"), Ok(&b"42"[..]));
    assert_eq!(manage_path((0, &[("/{a}/{b}", 0)]), b"/x1/2"), Ok(&b"1/2"[..]));
    assert_eq!(manage_path((0, &[("/", 0), ("/{id}", 0)]), b"//x"), Ok(&b""[..]));
    assert_eq!(manage_path((0, &[("/{id}", 0)]), b"/x"), Ok(&b""[..]));
}

#[test]
fn manage_path_without_a_placeholder_is_a_mismatch() {
    assert_eq!(manage_path((0, &[]), b"/x"), Err(Error::UriMismatch));
    assert_eq!(manage_path((0, &[("/user", 0)]), b"/user"), Err(Error::UriMismatch));
    assert_eq!(manage_path((0, &[("user/{id}", 0)]), b"user/1"), Err(Error::UriMismatch));
    assert_eq!(manage_path((0, &[("", 0), ("/{id}", 0)]), b"/1"), Err(Error::UriMismatch));
    assert_eq!(manage_path((0, &[("/user", 0), ("{id}", 0)]), b"/user1"), Err(Error::UriMismatch));
    assert_eq!(manage_path((0, &[("/user", 0), ("/{id}", 0)]), b"/user"), Err(Error::UriMismatch));
    assert_eq!(manage_path((0, &[("/{id}", 0)]), b"/"), Err(Error::UriMismatch));
    assert_eq!(manage_path((0, &[("/{id}", 0)]), b""), Err(Error::UriMismatch));
}

#[test]
fn headers_lease_themselves() {
    let mut headers = Headers::new();
    headers.lease_mut().push_from_iter(Header::from_name_and_value(b"a", &[&b"1"[..]][..])).unwrap();
    assert_eq!(headers.lease().headers_len(), 1);
}

#[test]
fn serde_json_is_a_marker() {
    assert_eq!(SerdeJson, SerdeJson);
}
