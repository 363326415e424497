//! The messages of the backend.

use crate::error::Error;
use crate::misc::bytes::{
    atoi_u64, be_u16, be_u32, bytes_eq, find_piece_end, piece_end, spec_atoi, u16_from_be,
    u32_from_be,
};
use vstd::prelude::*;

verus! {

/// The largest number of rows that a command tag is read for.
pub const MAX_ROWS: u64 = 999_999_999_999_999_999;

/// What the backend said, as far as the executor acts on it.
#[derive(Debug, Clone, Copy, PartialEq, Eq)]
pub enum MessageTy {
    /// An authentication request. Its body is read by [`super::Authentication`].
    Authentication,
    /// Process id and secret key for cancelling requests.
    BackendKeyData(u32, u32),
    /// A `Bind` was carried out.
    BindComplete,
    /// A `Close` was carried out.
    CloseComplete,
    /// A command ended; the number of rows that it touched.
    CommandComplete(u64),
    /// Data of a `COPY`.
    CopyData,
    /// A `COPY` ended.
    CopyDone,
    /// A `COPY` from the client begins.
    CopyInResponse,
    /// A `COPY` to the client begins.
    CopyOutResponse,
    /// A row with the given number of columns.
    DataRow(u16),
    /// The query string was empty.
    EmptyQueryResponse,
    /// A command failed.
    ErrorResponse {
        /// If the backend gives the connection up.
        is_fatal: bool,
        /// The SQLSTATE code.
        code: [u8; 5],
    },
    /// The statement yields no rows.
    NoData,
    /// A warning.
    NoticeResponse,
    /// A `NOTIFY` came in.
    NotificationResponse,
    /// The types of the parameters of a statement; their number.
    ParameterDescription(u16),
    /// A run-time parameter of the backend.
    ParameterStatus,
    /// A `Parse` was carried out.
    ParseComplete,
    /// The row limit of an `Execute` was reached.
    PortalSuspended,
    /// The backend waits for the next command.
    ReadyForQuery,
    /// The columns of the rows of a statement; their number.
    RowDescription(u16),
}

/// A message together with the tag that announced it.
#[derive(Debug, Clone, Copy, PartialEq, Eq)]
pub struct Message {
    /// The first byte of the message.
    pub tag: u8,
    /// What the message says.
    pub ty: MessageTy,
}

/// If `bytes` is one whole message: a tag, a length that counts itself and what follows, and
/// as many bytes as the length tells.
pub open spec fn is_framed(bytes: Seq<u8>) -> bool {
    &&& bytes.len() >= 5
    &&& bytes.len() == 1 + be_u32(bytes[1], bytes[2], bytes[3], bytes[4])
}

/// The number of bytes of the message whose first five bytes `header` begins with.
pub open spec fn framed_len(header: Seq<u8>) -> int {
    1 + be_u32(header[1], header[2], header[3], header[4])
}

/// Where the last blank-separated word of `s` begins.
pub open spec fn last_word(s: Seq<u8>, start: int) -> int
    decreases s.len() + 1 - start,
{
    if start < 0 || start > s.len() {
        start
    } else {
        let end = piece_end(s, 0x20, start);
        if end < start || end >= s.len() {
            start
        } else {
            last_word(s, end + 1)
        }
    }
}

/// The number of rows that the command tag `rest` ends with: its last word without the closing
/// zero byte, read as a number, or zero if that is no number.
pub open spec fn command_rows(rest: Seq<u8>) -> u64 {
    let begin = last_word(rest, 0);
    if begin < rest.len() {
        match spec_atoi(rest.subrange(begin, rest.len() - 1), MAX_ROWS as nat) {
            Some(n) => n as u64,
            None => 0,
        }
    } else {
        0
    }
}

/// Where the field of kind `kind` begins among the fields of an error that start at `start`,
/// each a kind, a text and a zero byte, up to the zero byte that closes the list.
pub open spec fn error_field(s: Seq<u8>, kind: u8, start: int) -> Option<(int, int)>
    decreases s.len() + 1 - start,
{
    if start < 0 || start >= s.len() || s[start] == 0 {
        None
    } else {
        let end = piece_end(s, 0, start + 1);
        if end < start + 1 || end >= s.len() {
            None
        } else if s[start] == kind {
            Some((start + 1, end))
        } else {
            error_field(s, kind, end + 1)
        }
    }
}

/// The text `FATAL`.
pub open spec fn fatal() -> Seq<u8> {
    seq![0x46u8, 0x41u8, 0x54u8, 0x41u8, 0x4cu8]
}

/// The text `PANIC`.
pub open spec fn panic() -> Seq<u8> {
    seq![0x50u8, 0x41u8, 0x4eu8, 0x49u8, 0x43u8]
}

/// What the fields `rest` of an error say. The severity is taken from the field that is
/// always in English, or else from the one that follows the language of the server; the code
/// must have five bytes.
pub open spec fn error_response(rest: Seq<u8>) -> Result<MessageTy, Error> {
    let severity = match error_field(rest, 0x56, 0) {
        Some(range) => Some(range),
        None => error_field(rest, 0x53, 0),
    };
    match (severity, error_field(rest, 0x43, 0)) {
        (Some(severity), Some(code)) => if code.1 - code.0 == 5 {
            let text = rest.subrange(severity.0, severity.1);
            Ok(
                MessageTy::ErrorResponse {
                    is_fatal: text == fatal() || text == panic(),
                    code: code_of(rest.subrange(code.0, code.1)),
                },
            )
        } else {
            Err(Error::UnexpectedValueFromBytes)
        },
        _ => Err(Error::UnexpectedValueFromBytes),
    }
}

/// The five bytes of `s` as a code.
pub open spec fn code_of(s: Seq<u8>) -> [u8; 5] {
    [s[0], s[1], s[2], s[3], s[4]]
}

/// What the message `bytes` says. The tag decides; a message that is too short for what its
/// tag announces, or whose tag is unknown, is refused.
pub open spec fn spec_message_ty(bytes: Seq<u8>) -> Result<MessageTy, Error> {
    if bytes.len() == 0 {
        Err(Error::UnexpectedValueFromBytes)
    } else {
        let tag = bytes[0];
        let rest = bytes.subrange(if bytes.len() >= 5 {
            5
        } else {
            bytes.len() as int
        }, bytes.len() as int);
        if tag == 0x31 {
            Ok(MessageTy::ParseComplete)
        } else if tag == 0x32 {
            Ok(MessageTy::BindComplete)
        } else if tag == 0x33 {
            Ok(MessageTy::CloseComplete)
        } else if tag == 0x41 {
            Ok(MessageTy::NotificationResponse)
        } else if tag == 0x43 && bytes.len() >= 5 {
            Ok(MessageTy::CommandComplete(command_rows(rest)))
        } else if tag == 0x44 && bytes.len() >= 7 {
            Ok(MessageTy::DataRow(be_u16(bytes[5], bytes[6])))
        } else if tag == 0x45 && bytes.len() >= 5 {
            error_response(rest)
        } else if tag == 0x47 {
            Ok(MessageTy::CopyInResponse)
        } else if tag == 0x48 {
            Ok(MessageTy::CopyOutResponse)
        } else if tag == 0x49 {
            Ok(MessageTy::EmptyQueryResponse)
        } else if tag == 0x4b && bytes.len() == 13 {
            Ok(
                MessageTy::BackendKeyData(
                    be_u32(bytes[5], bytes[6], bytes[7], bytes[8]),
                    be_u32(bytes[9], bytes[10], bytes[11], bytes[12]),
                ),
            )
        } else if tag == 0x4e {
            Ok(MessageTy::NoticeResponse)
        } else if tag == 0x52 && bytes.len() >= 5 {
            Ok(MessageTy::Authentication)
        } else if tag == 0x53 && bytes.len() >= 5 {
            Ok(MessageTy::ParameterStatus)
        } else if tag == 0x54 && bytes.len() >= 7 {
            Ok(MessageTy::RowDescription(be_u16(bytes[5], bytes[6])))
        } else if tag == 0x5a && bytes.len() == 6 {
            Ok(MessageTy::ReadyForQuery)
        } else if tag == 0x63 {
            Ok(MessageTy::CopyDone)
        } else if tag == 0x64 {
            Ok(MessageTy::CopyData)
        } else if tag == 0x6e {
            Ok(MessageTy::NoData)
        } else if tag == 0x73 {
            Ok(MessageTy::PortalSuspended)
        } else if tag == 0x74 && bytes.len() >= 7 {
            Ok(MessageTy::ParameterDescription(be_u16(bytes[5], bytes[6])))
        } else {
            Err(Error::UnexpectedValueFromBytes)
        }
    }
}

impl MessageTy {
    /// Reads what the message `bytes` says.
    pub fn try_from(bytes: &[u8]) -> (r: Result<MessageTy, Error>)
        ensures
            r == spec_message_ty(bytes@),
    {
        let n: usize = bytes.len();
        if n == 0 {
            return Err(Error::UnexpectedValueFromBytes);
        }
        let tag: u8 = bytes[0];
        let rest: &[u8] = vstd::slice::slice_subrange(bytes, if n >= 5 {
            5
        } else {
            n
        }, n);
        if tag == 0x31 {
            Ok(MessageTy::ParseComplete)
        } else if tag == 0x32 {
            Ok(MessageTy::BindComplete)
        } else if tag == 0x33 {
            Ok(MessageTy::CloseComplete)
        } else if tag == 0x41 {
            Ok(MessageTy::NotificationResponse)
        } else if tag == 0x43 && n >= 5 {
            Ok(MessageTy::CommandComplete(Self::command_complete_rows(rest)))
        } else if tag == 0x44 && n >= 7 {
            Ok(MessageTy::DataRow(u16_from_be(bytes[5], bytes[6])))
        } else if tag == 0x45 && n >= 5 {
            Self::error(rest)
        } else if tag == 0x47 {
            Ok(MessageTy::CopyInResponse)
        } else if tag == 0x48 {
            Ok(MessageTy::CopyOutResponse)
        } else if tag == 0x49 {
            Ok(MessageTy::EmptyQueryResponse)
        } else if tag == 0x4b && n == 13 {
            Ok(
                MessageTy::BackendKeyData(
                    u32_from_be(bytes[5], bytes[6], bytes[7], bytes[8]),
                    u32_from_be(bytes[9], bytes[10], bytes[11], bytes[12]),
                ),
            )
        } else if tag == 0x4e {
            Ok(MessageTy::NoticeResponse)
        } else if tag == 0x52 && n >= 5 {
            Ok(MessageTy::Authentication)
        } else if tag == 0x53 && n >= 5 {
            Ok(MessageTy::ParameterStatus)
        } else if tag == 0x54 && n >= 7 {
            Ok(MessageTy::RowDescription(u16_from_be(bytes[5], bytes[6])))
        } else if tag == 0x5a && n == 6 {
            Ok(MessageTy::ReadyForQuery)
        } else if tag == 0x63 {
            Ok(MessageTy::CopyDone)
        } else if tag == 0x64 {
            Ok(MessageTy::CopyData)
        } else if tag == 0x6e {
            Ok(MessageTy::NoData)
        } else if tag == 0x73 {
            Ok(MessageTy::PortalSuspended)
        } else if tag == 0x74 && n >= 7 {
            Ok(MessageTy::ParameterDescription(u16_from_be(bytes[5], bytes[6])))
        } else {
            Err(Error::UnexpectedValueFromBytes)
        }
    }

    /// Reads the number of rows at the end of a command tag.
    fn command_complete_rows(rest: &[u8]) -> (r: u64)
        ensures
            r == command_rows(rest@),
    {
        let n: usize = rest.len();
        let mut begin: usize = 0;
        let mut found: bool = false;
        while !found
            invariant
                n == rest@.len(),
                begin <= n,
                last_word(rest@, 0) == if found {
                    begin as int
                } else {
                    last_word(rest@, begin as int)
                },
            decreases n - begin + if found { 0int } else { 1int },
        {
            proof {
                reveal_with_fuel(last_word, 2);
            }
            let end: usize = find_piece_end(rest, 0x20, begin);
            if end >= n {
                found = true;
            } else {
                begin = end + 1;
            }
        }
        if begin < n {
            match atoi_u64(vstd::slice::slice_subrange(rest, begin, n - 1), MAX_ROWS) {
                Some(rows) => rows,
                None => 0,
            }
        } else {
            0
        }
    }

    /// Finds the text of the field of kind `kind` among the fields of an error.
    fn find_error_field(rest: &[u8], kind: u8) -> (r: Option<(usize, usize)>)
        ensures
            match r {
                Some((begin, end)) => error_field(rest@, kind, 0) == Some((begin as int, end as int))
                    && begin <= end < rest@.len(),
                None => error_field(rest@, kind, 0) is None,
            },
    {
        let n: usize = rest.len();
        let mut start: usize = 0;
        loop
            invariant
                n == rest@.len(),
                start <= n,
                error_field(rest@, kind, 0) == error_field(rest@, kind, start as int),
            decreases n - start,
        {
            proof {
                reveal_with_fuel(error_field, 2);
            }
            if start >= n || rest[start] == 0 {
                return None;
            }
            let end: usize = find_piece_end(rest, 0, start + 1);
            if end >= n {
                return None;
            }
            if rest[start] == kind {
                return Some((start + 1, end));
            }
            start = end + 1;
        }
    }

    /// Reads the fields of an error.
    fn error(rest: &[u8]) -> (r: Result<MessageTy, Error>)
        ensures
            r == error_response(rest@),
    {
        let severity = match Self::find_error_field(rest, 0x56) {
            Some(range) => Some(range),
            None => Self::find_error_field(rest, 0x53),
        };
        match (severity, Self::find_error_field(rest, 0x43)) {
            (Some(severity), Some(code)) => {
                if code.1 - code.0 == 5 {
                    let text: &[u8] = vstd::slice::slice_subrange(rest, severity.0, severity.1);
                    let fatal_text: [u8; 5] = [0x46, 0x41, 0x54, 0x41, 0x4c];
                    let panic_text: [u8; 5] = [0x50, 0x41, 0x4e, 0x49, 0x43];
                    assert(fatal_text@ =~= fatal());
                    assert(panic_text@ =~= panic());
                    let is_fatal: bool = bytes_eq(text, fatal_text.as_slice()) || bytes_eq(
                        text,
                        panic_text.as_slice(),
                    );
                    let at: usize = code.0;
                    let code: [u8; 5] = [
                        rest[at],
                        rest[at + 1],
                        rest[at + 2],
                        rest[at + 3],
                        rest[at + 4],
                    ];
                    assert(code == code_of(rest@.subrange(at as int, at + 5)));
                    Ok(MessageTy::ErrorResponse { is_fatal, code })
                } else {
                    Err(Error::UnexpectedValueFromBytes)
                }
            },
            _ => Err(Error::UnexpectedValueFromBytes),
        }
    }
}

/// A message that says nothing is refused for one reason only.
pub proof fn lemma_message_ty_failure(bytes: Seq<u8>)
    ensures
        spec_message_ty(bytes) matches Err(e) ==> e == Error::UnexpectedValueFromBytes,
{
}

} // verus!
