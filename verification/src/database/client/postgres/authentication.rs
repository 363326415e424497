//! What the server asks for while a connection is being authenticated.

use crate::error::Error;
use crate::misc::bytes::{
    atoi_u32, be_u32, find_piece_end, lemma_piece_end_is, lemma_u32_be, piece_end,
    spec_atoi, u32_be, u32_from_be, u32_to_be,
};
use crate::misc::filled_buffer::append_bytes;
use vstd::prelude::*;

verus! {

/// The body of an authentication request.
#[derive(Debug, Clone, Copy, PartialEq, Eq)]
pub enum Authentication<'bytes> {
    /// The client is authenticated.
    Success,
    /// A salted MD5 digest of the password is asked for.
    Md5Password([u8; 4]),
    /// SASL is asked for; the mechanisms that the server offers follow.
    Sasl(&'bytes [u8]),
    /// The challenge of the server.
    SaslContinue {
        /// How often the password has to be hashed.
        iterations: u32,
        /// The challenge as it was sent.
        payload: &'bytes [u8],
        /// The nonce of the client followed by the nonce of the server.
        nonce: &'bytes [u8],
        /// The salt of the password, still encoded.
        salt: &'bytes [u8],
    },
    /// The proof that the server knows the password, still encoded.
    SaslFinal(&'bytes [u8]),
}

/// What an [`Authentication`] says, without the borrow.
pub enum AuthenticationView {
    /// The client is authenticated.
    Success,
    /// A salted MD5 digest of the password is asked for.
    Md5Password(Seq<u8>),
    /// SASL is asked for.
    Sasl(Seq<u8>),
    /// The challenge of the server.
    SaslContinue { iterations: u32, payload: Seq<u8>, nonce: Seq<u8>, salt: Seq<u8> },
    /// The proof that the server knows the password.
    SaslFinal(Seq<u8>),
}

/// The fields of a challenge that were met so far.
pub struct SaslFields {
    /// What the last `i` field said.
    pub iterations: Option<u32>,
    /// What the last `r` field said.
    pub nonce: Option<Seq<u8>>,
    /// What the last `s` field said.
    pub salt: Option<Seq<u8>>,
}

/// The separator of the fields of a SASL message.
pub const COMMA: u8 = 0x2c;

/// What the fields of the challenge `s` say, from the field that starts at `start` on, given
/// what the fields in front of it said.
///
/// A field is a key, one more byte and a value. Fields are looked at until one is shorter than
/// two bytes; a later field overrules an earlier one with the same key; unknown keys are passed
/// over; an `i` field that is no number is a failure.
pub open spec fn scan_continue(s: Seq<u8>, start: int, met: SaslFields) -> Result<SaslFields, Error>
    decreases s.len() + 1 - start,
{
    if start < 0 || start > s.len() {
        Ok(met)
    } else {
        let end = piece_end(s, COMMA, start);
        if end - start < 2 || end > s.len() {
            Ok(met)
        } else {
            let value = s.subrange(start + 2, end);
            if s[start] == 0x69 {
                match spec_atoi(value, u32::MAX as nat) {
                    Some(n) => scan_continue(
                        s,
                        end + 1,
                        SaslFields { iterations: Some(n as u32), ..met },
                    ),
                    None => Err(Error::AtoiInvalidBytes),
                }
            } else if s[start] == 0x72 {
                scan_continue(s, end + 1, SaslFields { nonce: Some(value), ..met })
            } else if s[start] == 0x73 {
                scan_continue(s, end + 1, SaslFields { salt: Some(value), ..met })
            } else {
                scan_continue(s, end + 1, met)
            }
        }
    }
}

/// What the last of the leading `v` fields of `s` says, from the field that starts at `start`
/// on, given what the fields in front of it said.
pub open spec fn scan_final(s: Seq<u8>, start: int, met: Option<Seq<u8>>) -> Option<Seq<u8>>
    decreases s.len() + 1 - start,
{
    if start < 0 || start > s.len() {
        met
    } else {
        let end = piece_end(s, COMMA, start);
        if end - start < 2 || end > s.len() || s[start] != 0x76 {
            met
        } else {
            scan_final(s, end + 1, Some(s.subrange(start + 2, end)))
        }
    }
}

/// The challenge that `fields` make up once all of them were met, or the first one that is
/// missing.
pub open spec fn challenge(payload: Seq<u8>, fields: SaslFields) -> Result<AuthenticationView, Error> {
    match fields.iterations {
        None => Err(Error::NoInnerValue("iterations")),
        Some(iterations) => match fields.nonce {
            None => Err(Error::NoInnerValue("nonce")),
            Some(nonce) => match fields.salt {
                None => Err(Error::NoInnerValue("salt")),
                Some(salt) => Ok(
                    AuthenticationView::SaslContinue { iterations, payload, nonce, salt },
                ),
            },
        },
    }
}

/// What the body `bytes` of an authentication request says: four bytes select the kind of
/// request and the rest is read accordingly.
pub open spec fn spec_parse(bytes: Seq<u8>) -> Result<AuthenticationView, Error> {
    if bytes.len() < 4 {
        Err(Error::UnexpectedValueFromBytes)
    } else {
        let n = be_u32(bytes[0], bytes[1], bytes[2], bytes[3]);
        let rest = bytes.subrange(4, bytes.len() as int);
        if n == 0 {
            Ok(AuthenticationView::Success)
        } else if n == 5 {
            if rest.len() == 4 {
                Ok(AuthenticationView::Md5Password(rest))
            } else {
                Err(Error::UnexpectedValueFromBytes)
            }
        } else if n == 10 {
            Ok(AuthenticationView::Sasl(rest))
        } else if n == 11 {
            match scan_continue(
                rest,
                0,
                SaslFields { iterations: None, nonce: None, salt: None },
            ) {
                Ok(fields) => challenge(rest, fields),
                Err(e) => Err(e),
            }
        } else if n == 12 {
            match scan_final(rest, 0, None) {
                Some(verifier) => Ok(AuthenticationView::SaslFinal(verifier)),
                None => Err(Error::NoInnerValue("verifier")),
            }
        } else {
            Err(Error::UnexpectedValueFromBytes)
        }
    }
}

/// If `e` is a failure of reading an authentication request: its body is not one, a number
/// in it is none, or a field that has to be there is missing.
pub open spec fn is_parse_failure(e: Error) -> bool {
    e == Error::UnexpectedValueFromBytes || e == Error::AtoiInvalidBytes || e is NoInnerValue
}

/// The fields of a challenge are read or a number among them is none.
pub proof fn lemma_scan_failure(s: Seq<u8>, start: int, met: SaslFields)
    ensures
        scan_continue(s, start, met) matches Err(e) ==> e == Error::AtoiInvalidBytes,
    decreases s.len() + 1 - start,
{
    if !(start < 0 || start > s.len()) {
        let end = piece_end(s, COMMA, start);
        if !(end - start < 2 || end > s.len()) {
            let value = s.subrange(start + 2, end);
            if s[start] == 0x69 {
                match spec_atoi(value, u32::MAX as nat) {
                    Some(n) => {
                        lemma_scan_failure(
                            s,
                            end + 1,
                            SaslFields { iterations: Some(n as u32), ..met },
                        );
                    },
                    None => {},
                }
            } else if s[start] == 0x72 {
                lemma_scan_failure(s, end + 1, SaslFields { nonce: Some(value), ..met });
            } else if s[start] == 0x73 {
                lemma_scan_failure(s, end + 1, SaslFields { salt: Some(value), ..met });
            } else {
                lemma_scan_failure(s, end + 1, met);
            }
        }
    }
}

/// A body that is not read fails to be read in one of the ways that [`is_parse_failure`]
/// names.
pub proof fn lemma_parse_failure(bytes: Seq<u8>)
    ensures
        spec_parse(bytes) matches Err(e) ==> is_parse_failure(e),
{
    if bytes.len() >= 4 {
        lemma_scan_failure(
            bytes.subrange(4, bytes.len() as int),
            0,
            SaslFields { iterations: None, nonce: None, salt: None },
        );
    }
}

/// The body of the authentication request that says `auth`.
pub open spec fn spec_encode(auth: AuthenticationView) -> Seq<u8> {
    match auth {
        AuthenticationView::Success => u32_be(0),
        AuthenticationView::Md5Password(salt) => u32_be(5) + salt,
        AuthenticationView::Sasl(mechanisms) => u32_be(10) + mechanisms,
        AuthenticationView::SaslContinue { payload, .. } => u32_be(11) + payload,
        AuthenticationView::SaslFinal(verifier) => u32_be(12) + seq![0x76u8, 0x3du8] + verifier,
    }
}

impl AuthenticationView {
    /// The request is one that a server can send: a salt has four bytes, the fields of a
    /// challenge are what its payload says, and a verifier holds no comma.
    pub open spec fn wf(self) -> bool {
        match self {
            AuthenticationView::Success => true,
            AuthenticationView::Md5Password(salt) => salt.len() == 4,
            AuthenticationView::Sasl(_) => true,
            AuthenticationView::SaslContinue { iterations, payload, nonce, salt } => scan_continue(
                payload,
                0,
                SaslFields { iterations: None, nonce: None, salt: None },
            ) == Ok::<SaslFields, Error>(
                SaslFields { iterations: Some(iterations), nonce: Some(nonce), salt: Some(salt) },
            ),
            AuthenticationView::SaslFinal(verifier) => forall|i: int|
                0 <= i < verifier.len() ==> #[trigger] verifier[i] != COMMA,
        }
    }
}

/// Writing a request down and reading it again gives the request back, for each of the five
/// kinds.
pub proof fn lemma_encode_then_parse(auth: AuthenticationView)
    requires
        auth.wf(),
    ensures
        spec_parse(spec_encode(auth)) == Ok::<AuthenticationView, Error>(auth),
{
    let bytes = spec_encode(auth);
    let rest = bytes.subrange(4, bytes.len() as int);
    lemma_u32_be(0);
    lemma_u32_be(5);
    lemma_u32_be(10);
    lemma_u32_be(11);
    lemma_u32_be(12);
    match auth {
        AuthenticationView::Success => {},
        AuthenticationView::Md5Password(salt) => {
            assert(rest =~= salt);
        },
        AuthenticationView::Sasl(mechanisms) => {
            assert(rest =~= mechanisms);
        },
        AuthenticationView::SaslContinue { payload, .. } => {
            assert(rest =~= payload);
        },
        AuthenticationView::SaslFinal(verifier) => {
            reveal_with_fuel(scan_final, 2);
            assert(rest =~= seq![0x76u8, 0x3du8] + verifier);
            assert forall|i: int| 0 <= i < rest.len() implies #[trigger] rest[i] != COMMA by {
                if i >= 2 {
                    assert(rest[i] == verifier[i - 2]);
                }
            }
            lemma_piece_end_is(rest, COMMA, 0, rest.len() as int);
            assert(rest.subrange(2, rest.len() as int) =~= verifier);
        },
    }
}

impl<'bytes> View for Authentication<'bytes> {
    type V = AuthenticationView;

    open spec fn view(&self) -> AuthenticationView {
        match *self {
            Authentication::Success => AuthenticationView::Success,
            Authentication::Md5Password(salt) => AuthenticationView::Md5Password(salt@),
            Authentication::Sasl(mechanisms) => AuthenticationView::Sasl(mechanisms@),
            Authentication::SaslContinue {
                iterations,
                payload,
                nonce,
                salt,
            } => AuthenticationView::SaslContinue {
                iterations,
                payload: payload@,
                nonce: nonce@,
                salt: salt@,
            },
            Authentication::SaslFinal(verifier) => AuthenticationView::SaslFinal(verifier@),
        }
    }
}

/// What was parsed, without the borrow.
pub open spec fn parsed(r: Result<Authentication<'_>, Error>) -> Result<AuthenticationView, Error> {
    match r {
        Ok(auth) => Ok(auth@),
        Err(e) => Err(e),
    }
}

impl<'bytes> Authentication<'bytes> {
    /// Reads the body of an authentication request.
    pub fn try_from(bytes: &'bytes [u8]) -> (r: Result<Self, Error>)
        ensures
            parsed(r) == spec_parse(bytes@),
    {
        if bytes.len() < 4 {
            return Err(Error::UnexpectedValueFromBytes);
        }
        let n: u32 = u32_from_be(bytes[0], bytes[1], bytes[2], bytes[3]);
        let rest: &'bytes [u8] = vstd::slice::slice_subrange(bytes, 4, bytes.len());
        if n == 0 {
            Ok(Authentication::Success)
        } else if n == 5 {
            if rest.len() == 4 {
                let salt: [u8; 4] = [rest[0], rest[1], rest[2], rest[3]];
                assert(salt@ =~= rest@);
                Ok(Authentication::Md5Password(salt))
            } else {
                Err(Error::UnexpectedValueFromBytes)
            }
        } else if n == 10 {
            Ok(Authentication::Sasl(rest))
        } else if n == 11 {
            Self::sasl_continue(rest)
        } else if n == 12 {
            Self::sasl_final(rest)
        } else {
            Err(Error::UnexpectedValueFromBytes)
        }
    }

    /// Writes the body of the authentication request that says `self` behind `out`.
    pub fn encode(&self, out: &mut Vec<u8>)
        ensures
            final(out)@ == old(out)@ + spec_encode(self@),
    {
        match *self {
            Authentication::Success => {
                append_bytes(out, u32_to_be(0).as_slice());
            },
            Authentication::Md5Password(salt) => {
                append_bytes(out, u32_to_be(5).as_slice());
                append_bytes(out, salt.as_slice());
            },
            Authentication::Sasl(mechanisms) => {
                append_bytes(out, u32_to_be(10).as_slice());
                append_bytes(out, mechanisms);
            },
            Authentication::SaslContinue { payload, .. } => {
                append_bytes(out, u32_to_be(11).as_slice());
                append_bytes(out, payload);
            },
            Authentication::SaslFinal(verifier) => {
                append_bytes(out, u32_to_be(12).as_slice());
                let prefix: [u8; 2] = [0x76, 0x3d];
                assert(prefix@ =~= seq![0x76u8, 0x3du8]);
                append_bytes(out, prefix.as_slice());
                append_bytes(out, verifier);
            },
        }
        assert(out@ =~= old(out)@ + spec_encode(self@));
    }

    /// Reads the fields of a challenge.
    fn sasl_continue(rest: &'bytes [u8]) -> (r: Result<Self, Error>)
        ensures
            parsed(r) == match scan_continue(
                rest@,
                0,
                SaslFields { iterations: None, nonce: None, salt: None },
            ) {
                Ok(fields) => challenge(rest@, fields),
                Err(e) => Err(e),
            },
    {
        let n: usize = rest.len();
        let mut iterations: Option<u32> = None;
        let mut nonce: Option<&'bytes [u8]> = None;
        let mut salt: Option<&'bytes [u8]> = None;
        let mut start: usize = 0;
        let mut exhausted: bool = false;
        let ghost all = scan_continue(
            rest@,
            0,
            SaslFields { iterations: None, nonce: None, salt: None },
        );
        while !exhausted
            invariant
                n == rest@.len(),
                start <= n,
                all == scan_continue(
                    rest@,
                    0,
                    SaslFields { iterations: None, nonce: None, salt: None },
                ),
                all == if exhausted {
                    Ok::<SaslFields, Error>(met(iterations, nonce, salt))
                } else {
                    scan_continue(rest@, start as int, met(iterations, nonce, salt))
                },
            decreases n - start + if exhausted { 0int } else { 1int },
        {
            proof {
                reveal_with_fuel(scan_continue, 2);
            }
            let end: usize = find_piece_end(rest, COMMA, start);
            if end - start < 2 {
                exhausted = true;
            } else {
                let value: &'bytes [u8] = vstd::slice::slice_subrange(rest, start + 2, end);
                let key: u8 = rest[start];
                if key == 0x69 {
                    match atoi_u32(value) {
                        Some(number) => {
                            iterations = Some(number);
                        },
                        None => {
                            return Err(Error::AtoiInvalidBytes);
                        },
                    }
                } else if key == 0x72 {
                    nonce = Some(value);
                } else if key == 0x73 {
                    salt = Some(value);
                }
                if end == n {
                    exhausted = true;
                } else {
                    start = end + 1;
                }
            }
        }
        match iterations {
            None => Err(Error::NoInnerValue("iterations")),
            Some(iterations) => match nonce {
                None => Err(Error::NoInnerValue("nonce")),
                Some(nonce) => match salt {
                    None => Err(Error::NoInnerValue("salt")),
                    Some(salt) => Ok(
                        Authentication::SaslContinue { iterations, payload: rest, nonce, salt },
                    ),
                },
            },
        }
    }

    /// Reads the verifier of the server.
    fn sasl_final(rest: &'bytes [u8]) -> (r: Result<Self, Error>)
        ensures
            parsed(r) == match scan_final(rest@, 0, None) {
                Some(verifier) => Ok::<AuthenticationView, Error>(
                    AuthenticationView::SaslFinal(verifier),
                ),
                None => Err(Error::NoInnerValue("verifier")),
            },
    {
        let n: usize = rest.len();
        let mut verifier: Option<&'bytes [u8]> = None;
        let mut start: usize = 0;
        let mut exhausted: bool = false;
        let ghost all = scan_final(rest@, 0, None);
        while !exhausted
            invariant
                n == rest@.len(),
                start <= n,
                all == if exhausted {
                    slice_view(verifier)
                } else {
                    scan_final(rest@, start as int, slice_view(verifier))
                },
            decreases n - start + if exhausted { 0int } else { 1int },
        {
            proof {
                reveal_with_fuel(scan_final, 2);
            }
            let end: usize = find_piece_end(rest, COMMA, start);
            if end - start < 2 || rest[start] != 0x76 {
                exhausted = true;
            } else {
                verifier = Some(vstd::slice::slice_subrange(rest, start + 2, end));
                if end == n {
                    exhausted = true;
                } else {
                    start = end + 1;
                }
            }
        }
        match verifier {
            Some(verifier) => Ok(Authentication::SaslFinal(verifier)),
            None => Err(Error::NoInnerValue("verifier")),
        }
    }
}

/// What a borrowed run of bytes holds, if there is one.
pub open spec fn slice_view(bytes: Option<&[u8]>) -> Option<Seq<u8>> {
    match bytes {
        Some(bytes) => Some(bytes@),
        None => None,
    }
}

/// The fields that were met, without the borrows.
pub open spec fn met(iterations: Option<u32>, nonce: Option<&[u8]>, salt: Option<&[u8]>) -> SaslFields {
    SaslFields { iterations, nonce: slice_view(nonce), salt: slice_view(salt) }
}

} // verus!
