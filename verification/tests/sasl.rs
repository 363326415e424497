use wtx::database::client::postgres::sasl::{
    append_hex, bound_end_point, choose_binding, client_proof, contains_name, md5_password, nonce,
    nonce_of,
    salted_password, server_signature,
    verify_server, xor_digests, ChannelBinding, ScramChallenge, ScramClient,
};
use wtx::misc::{Rng, Xorshift64};
use wtx::Error;

const SALT: [u8; 16] =
    [0x5b, 0x6d, 0x99, 0x68, 0x9d, 0x12, 0x35, 0x8e, 0xec, 0xa0, 0x4b, 0x14, 0x12, 0x36, 0xfa, 0x81];
const AUTH_MESSAGE: &[u8] = b"n=user,r=rOprNGfwEbeRWgbNEkqO,r=rOprNGfwEbeRWgbNEkqO%hvYDpWUa2RaTCAfuxFIlj)hNlF$k0,s=W22ZaJ0SNY7soEsUEjb6gQ==,i=4096,c=biws,r=rOprNGfwEbeRWgbNEkqO%hvYDpWUa2RaTCAfuxFIlj)hNlF$k0";

#[test]
fn scram_sha_256_known_answers() {
    let salted = salted_password(4096, &SALT, b"pencil");
    let proof = client_proof(&salted, AUTH_MESSAGE);
    assert_eq!(
        proof,
        [
            0x74, 0x7c, 0xdb, 0x65, 0xaa, 0x56, 0x22, 0x4e, 0x23, 0x52, 0x13, 0x7e, 0x52, 0xd7,
            0xbd, 0xca, 0xd6, 0xa0, 0xf7, 0x38, 0xdf, 0x30, 0x78, 0x2c, 0xaa, 0x69, 0xa2, 0xcf,
            0xb0, 0x27, 0x75, 0x54
        ]
    );
    let signature = server_signature(&salted, AUTH_MESSAGE);
    assert_eq!(verify_server(&signature, b"6rriTRBi23WpRR/wtup+mMhUZUn/dB5nLTJRsjl95G4="), Ok(()));
    assert_eq!(
        verify_server(&signature, b"6rriTRBi23WpRR/wtup+mMhUZUn/dB5nLTJRsjl95G5="),
        Err(Error::SaslVerificationFailed)
    );
    assert_eq!(verify_server(&signature, b"not base64!"), Err(Error::SaslVerificationFailed));
    assert_eq!(verify_server(&signature, b""), Err(Error::SaslVerificationFailed));
}

#[test]
fn salted_password_of_one_round_is_one_digest() {
    let one = salted_password(1, b"salt", b"password");
    assert_eq!(
        one,
        [
            0x12, 0x0f, 0xb6, 0xcf, 0xfc, 0xf8, 0xb3, 0x2c, 0x43, 0xe7, 0x22, 0x52, 0x56, 0xc4,
            0xf8, 0x37, 0xa8, 0x65, 0x48, 0xc9, 0x2c, 0xcc, 0x35, 0x48, 0x08, 0x05, 0x98, 0x7c,
            0xb7, 0x0b, 0xe1, 0x7b
        ]
    );
    let two = salted_password(2, b"salt", b"password");
    assert_eq!(
        two,
        [
            0xae, 0x4d, 0x0c, 0x95, 0xaf, 0x6b, 0x46, 0xd3, 0x2d, 0x0a, 0xdf, 0xf9, 0x28, 0xf0,
            0x6d, 0xd0, 0x2a, 0x30, 0x3f, 0x8e, 0xf3, 0xc2, 0x51, 0xdf, 0xd6, 0xe2, 0xd8, 0x5a,
            0x95, 0x47, 0x4c, 0x43
        ]
    );
}

#[test]
fn xor_digests_combines_byte_by_byte() {
    let mut a = [0u8; 32];
    let mut b = [0xffu8; 32];
    a[0] = 0b1010;
    b[0] = 0b0110;
    let r = xor_digests(&a, &b);
    assert_eq!(r[0], 0b1100);
    assert_eq!(r[1], 0xff);
    assert_eq!(xor_digests(&r, &b), a);
}

#[test]
fn answer_binds_the_channel_and_repeats_the_nonce() {
    let client = ScramClient { header: b"n,,", end_point: b"", nonce: b"abc", password: b"pencil" };
    let challenge = ScramChallenge {
        iterations: 4096,
        payload: b"r=abcdef,s=W22ZaJ0SNY7soEsUEjb6gQ==,i=4096",
        nonce: b"abcdef",
        salt: b"W22ZaJ0SNY7soEsUEjb6gQ==",
    };
    let answer = client.answer(&challenge).unwrap();
    assert!(answer.client_final.starts_with(b"c=biws,r=abcdef,p="));
    assert_eq!(answer.client_final.len(), 18 + 44);
    let salted = salted_password(4096, &SALT, b"pencil");
    let auth = b"n=,r=abc,r=abcdef,s=W22ZaJ0SNY7soEsUEjb6gQ==,i=4096,c=biws,r=abcdef";
    assert_eq!(answer.server_signature, server_signature(&salted, auth));
    let bound = ScramClient { header: b"p=tls-server-end-point,,", end_point: &[1, 2], ..client };
    assert!(bound
        .answer(&challenge)
        .unwrap()
        .client_final
        .starts_with(b"c=cD10bHMtc2VydmVyLWVuZC1wb2ludCwsAQI=,r=abcdef,p="));
}

#[test]
fn answer_refuses_weak_or_foreign_challenges() {
    let client = ScramClient { header: b"n,,", end_point: b"", nonce: b"abc", password: b"p" };
    let challenge =
        ScramChallenge { iterations: 4096, payload: b"", nonce: b"abcdef", salt: b"c2FsdA==" };
    assert!(client.answer(&challenge).is_ok());
    let refused = |challenge: ScramChallenge<'_>| client.answer(&challenge).map(|_| ());
    assert_eq!(
        refused(ScramChallenge { iterations: 4095, ..challenge }),
        Err(Error::SaslVerificationFailed)
    );
    assert_eq!(
        refused(ScramChallenge { nonce: b"abXdef", ..challenge }),
        Err(Error::SaslVerificationFailed)
    );
    assert_eq!(
        refused(ScramChallenge { nonce: b"ab", ..challenge }),
        Err(Error::SaslVerificationFailed)
    );
    assert_eq!(
        refused(ScramChallenge { salt: b"c2FsdA=", ..challenge }),
        Err(Error::SaslVerificationFailed)
    );
    assert_eq!(refused(ScramChallenge { nonce: b"abc", ..challenge }), Ok(()));
}

#[test]
fn nonce_has_24_characters_without_a_comma() {
    let mut rng = Xorshift64::from(7);
    let first = nonce(&mut rng);
    assert!(first.iter().all(|b| (0x30..0x70).contains(b)));
    assert_ne!(first, nonce(&mut rng));
}

#[test]
fn choose_binding_prefers_the_bound_mechanism_on_encrypted_channels() {
    let both = b"SCRAM-SHA-256-PLUS\0SCRAM-SHA-256\0\0";
    let plain = b"SCRAM-SHA-256\0\0";
    assert_eq!(choose_binding(both, true), Some(ChannelBinding::TlsServerEndPoint));
    assert_eq!(choose_binding(both, false), Some(ChannelBinding::Unsupported));
    assert_eq!(choose_binding(plain, true), Some(ChannelBinding::Unused));
    assert_eq!(choose_binding(plain, false), Some(ChannelBinding::Unsupported));
    assert_eq!(choose_binding(b"SCRAM-SHA-256-PLUS\0\0", false), None);
    assert_eq!(choose_binding(b"SCRAM-SHA-1\0\0", true), None);
    assert_eq!(choose_binding(b"", false), None);
    assert!(contains_name(b"a\0bc", b"bc"));
    assert!(!contains_name(b"a\0bc", b"b"));
    assert!(contains_name(b"a\0\0", b""));
    assert!(!contains_name(b"", b""));
}

#[test]
fn bindings_name_their_mechanism_and_header() {
    assert_eq!(ChannelBinding::Unsupported.header(), b"n,,");
    assert_eq!(ChannelBinding::Unused.header(), b"y,,");
    assert_eq!(ChannelBinding::TlsServerEndPoint.header(), b"p=tls-server-end-point,,");
    assert_eq!(ChannelBinding::Unsupported.mechanism(), b"SCRAM-SHA-256");
    assert_eq!(ChannelBinding::TlsServerEndPoint.mechanism(), b"SCRAM-SHA-256-PLUS");
}

#[test]
fn md5_password_of_a_known_user() {
    assert_eq!(
        md5_password(b"md5_user", b"password", &[0x2a, 0x3d, 0x8f, 0xe0]),
        b"md562af4dd09bbb41884907a838a3233294"
    );
}

#[test]
fn append_hex_spells_two_small_characters_for_each_byte() {
    let mut out = vec![b'x'];
    append_hex(&mut out, &[0x00, 0x09, 0x0a, 0xf0, 0xff, 0x5c]);
    assert_eq!(out, b"x00090af0ff5c");
    append_hex(&mut out, &[]);
    assert_eq!(out.len(), 13);
}

#[test]
fn each_drawn_byte_gives_the_character_at_its_place() {
    let mut drawn = [0u8; 24];
    for (i, byte) in drawn.iter_mut().enumerate() {
        *byte = (i as u8) * 11 + 3;
    }
    drawn[0] = 0;
    drawn[1] = 63;
    drawn[2] = 64;
    drawn[3] = 255;
    let r = nonce_of(drawn);
    assert_eq!(r[0], b'0');
    assert_eq!(r[1], 0x30 + 63);
    assert_eq!(r[2], b'0');
    assert_eq!(r[3], 0x30 + 63);
    for i in 0..24 {
        assert_eq!(r[i], 0x30 + drawn[i] % 64);
        assert_ne!(r[i], b',');
    }
}

#[test]
fn the_nonce_is_what_the_drawn_bytes_give() {
    let mut rng = Xorshift64::from(7);
    let mut source = Xorshift64::from(7);
    let mut drawn = [0u8; 24];
    source.fill_slice(&mut drawn);
    assert_eq!(nonce(&mut rng), nonce_of(drawn));
    assert_eq!(rng, source);
}

#[test]
fn the_answer_to_a_request_for_md5_has_its_length() {
    assert_eq!(md5_password(b"user", b"password", &[1, 2, 3, 4]).len(), 35);
    assert_eq!(md5_password(b"", b"", &[0; 4]).len(), 35);
}

#[test]
fn an_exchange_is_bound_to_the_end_point_only_if_it_is_bound_at_all() {
    let end_point = [7u8; 32];
    assert_eq!(bound_end_point(ChannelBinding::TlsServerEndPoint, Some(&end_point)), Ok(&end_point[..]));
    assert_eq!(bound_end_point(ChannelBinding::TlsServerEndPoint, None), Ok(&[][..]));
    assert_eq!(bound_end_point(ChannelBinding::Unused, Some(&end_point)), Ok(&[][..]));
    assert_eq!(bound_end_point(ChannelBinding::Unsupported, None), Ok(&[][..]));
}

#[test]
fn an_end_point_that_is_too_long_is_refused() {
    let longest = vec![1u8; 0xffff];
    let too_long = vec![1u8; 0x10000];
    assert_eq!(bound_end_point(ChannelBinding::TlsServerEndPoint, Some(&longest)), Ok(&longest[..]));
    assert_eq!(
        bound_end_point(ChannelBinding::TlsServerEndPoint, Some(&too_long)),
        Err(Error::InvalidEndpointBinding)
    );
    assert_eq!(bound_end_point(ChannelBinding::Unused, Some(&too_long)), Ok(&[][..]));
}
