use wtx::database::client::postgres::Authentication;
use wtx::Error;

fn body(kind: u32, rest: &[u8]) -> Vec<u8> {
    let mut bytes = kind.to_be_bytes().to_vec();
    bytes.extend_from_slice(rest);
    bytes
}

fn round_trip(auth: Authentication<'_>) {
    let mut bytes = vec![0xaa];
    auth.encode(&mut bytes);
    assert_eq!(bytes[0], 0xaa);
    assert_eq!(Authentication::try_from(&bytes[1..]), Ok(auth));
}

#[test]
fn pg_sasl_round_trip() {
    let payload = b"r=fyko+d2lbbFgONRv9qkxdawL3rfcNHYJY1ZVvWVs7j,s=QSXCR+Q6sek8bf92,i=4096";
    let bytes = body(11, payload);
    let auth = Authentication::try_from(&bytes).unwrap();
    assert_eq!(
        auth,
        Authentication::SaslContinue {
            iterations: 4096,
            payload,
            nonce: b"fyko+d2lbbFgONRv9qkxdawL3rfcNHYJY1ZVvWVs7j",
            salt: b"QSXCR+Q6sek8bf92",
        }
    );
}

#[test]
fn too_few_bytes_are_refused() {
    assert_eq!(Authentication::try_from(&[]), Err(Error::UnexpectedValueFromBytes));
    assert_eq!(Authentication::try_from(&[0, 0, 0]), Err(Error::UnexpectedValueFromBytes));
}

#[test]
fn unknown_kinds_are_refused() {
    assert_eq!(Authentication::try_from(&body(1, b"")), Err(Error::UnexpectedValueFromBytes));
    assert_eq!(Authentication::try_from(&body(13, b"x")), Err(Error::UnexpectedValueFromBytes));
    assert_eq!(
        Authentication::try_from(&body(u32::MAX, b"")),
        Err(Error::UnexpectedValueFromBytes)
    );
}

#[test]
fn success_ignores_what_follows() {
    assert_eq!(Authentication::try_from(&body(0, b"")), Ok(Authentication::Success));
    assert_eq!(Authentication::try_from(&body(0, b"abc")), Ok(Authentication::Success));
}

#[test]
fn md5_password_needs_four_bytes_of_salt() {
    assert_eq!(
        Authentication::try_from(&body(5, &[1, 2, 3, 4])),
        Ok(Authentication::Md5Password([1, 2, 3, 4]))
    );
    assert_eq!(
        Authentication::try_from(&body(5, &[1, 2, 3])),
        Err(Error::UnexpectedValueFromBytes)
    );
    assert_eq!(
        Authentication::try_from(&body(5, &[1, 2, 3, 4, 5])),
        Err(Error::UnexpectedValueFromBytes)
    );
}

#[test]
fn sasl_hands_out_the_mechanisms() {
    let mechanisms = b"SCRAM-SHA-256\0\0";
    assert_eq!(Authentication::try_from(&body(10, mechanisms)), Ok(Authentication::Sasl(mechanisms)));
}

#[test]
fn sasl_continue_reports_the_first_missing_field() {
    let parse = |payload: &[u8]| Authentication::try_from(&body(11, payload)).map(|_| ());
    assert_eq!(parse(b""), Err(Error::NoInnerValue("iterations")));
    assert_eq!(parse(b"r=abc,s=def"), Err(Error::NoInnerValue("iterations")));
    assert_eq!(parse(b"i=4096,s=def"), Err(Error::NoInnerValue("nonce")));
    assert_eq!(parse(b"i=4096,r=abc"), Err(Error::NoInnerValue("salt")));
    assert_eq!(parse(b"i=4096,r=abc,s=def"), Ok(()));
}

#[test]
fn sasl_continue_stops_at_a_field_that_is_too_short() {
    let parse = |payload: &[u8]| Authentication::try_from(&body(11, payload)).map(|_| ());
    assert_eq!(parse(b"i=4096,,r=abc,s=def"), Err(Error::NoInnerValue("nonce")));
    assert_eq!(parse(b"i=4096,r=abc,x,s=def"), Err(Error::NoInnerValue("salt")));
}

#[test]
fn sasl_continue_lets_later_fields_overrule_and_skips_unknown_ones() {
    let payload = b"i=1,zz,m=ext,r=a,i=22,r=,s=c";
    let bytes = body(11, payload);
    assert_eq!(
        Authentication::try_from(&bytes),
        Ok(Authentication::SaslContinue { iterations: 22, payload, nonce: b"", salt: b"c" })
    );
}

#[test]
fn sasl_continue_refuses_iterations_that_are_no_number() {
    let parse = |payload: &[u8]| Authentication::try_from(&body(11, payload)).map(|_| ());
    assert_eq!(parse(b"i=,r=a,s=b"), Err(Error::AtoiInvalidBytes));
    assert_eq!(parse(b"i=12a,r=a,s=b"), Err(Error::AtoiInvalidBytes));
    assert_eq!(parse(b"i=-1,r=a,s=b"), Err(Error::AtoiInvalidBytes));
    assert_eq!(parse(b"i=4294967296,r=a,s=b"), Err(Error::AtoiInvalidBytes));
    assert_eq!(parse(b"i=4294967295,r=a,s=b"), Ok(()));
    assert_eq!(parse(b"i=0004096,r=a,s=b"), Ok(()));
}

#[test]
fn sasl_final_takes_the_last_of_the_leading_verifiers() {
    assert_eq!(
        Authentication::try_from(&body(12, b"v=abc")),
        Ok(Authentication::SaslFinal(b"abc"))
    );
    assert_eq!(
        Authentication::try_from(&body(12, b"v=abc,v=def,x=1,v=ghi")),
        Ok(Authentication::SaslFinal(b"def"))
    );
    assert_eq!(
        Authentication::try_from(&body(12, b"e=other,v=abc")),
        Err(Error::NoInnerValue("verifier"))
    );
    assert_eq!(Authentication::try_from(&body(12, b"")), Err(Error::NoInnerValue("verifier")));
    assert_eq!(Authentication::try_from(&body(12, b"v")), Err(Error::NoInnerValue("verifier")));
    assert_eq!(Authentication::try_from(&body(12, b"v=")), Ok(Authentication::SaslFinal(b"")));
}

#[test]
fn encode_then_parse_is_identity_for_all_five_kinds() {
    round_trip(Authentication::Success);
    round_trip(Authentication::Md5Password([0, 255, 7, 44]));
    round_trip(Authentication::Sasl(b"SCRAM-SHA-256\0SCRAM-SHA-256-PLUS\0\0"));
    round_trip(Authentication::Sasl(b""));
    round_trip(Authentication::SaslContinue {
        iterations: 4096,
        payload: b"r=nonce,s=c2FsdA==,i=4096",
        nonce: b"nonce",
        salt: b"c2FsdA==",
    });
    round_trip(Authentication::SaslFinal(b"6rriTRBi23WpRR/wtup+mMhUZUn/dB5nLTJRsjl95G4="));
    round_trip(Authentication::SaslFinal(b""));
}

#[test]
fn encode_writes_the_kind_in_front() {
    let mut bytes = Vec::new();
    Authentication::SaslFinal(b"ab").encode(&mut bytes);
    assert_eq!(bytes, [0, 0, 0, 12, b'v', b'=', b'a', b'b']);
    bytes.clear();
    Authentication::Md5Password([1, 2, 3, 4]).encode(&mut bytes);
    assert_eq!(bytes, [0, 0, 0, 5, 1, 2, 3, 4]);
}
