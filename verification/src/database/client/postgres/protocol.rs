//! The messages of the frontend.

use crate::database::client::postgres::config::Config;
use crate::error::Error;
use crate::misc::bytes::{u16_be, u16_to_be, u32_be, u32_to_be};
use crate::misc::filled_buffer::append_bytes;
use vstd::prelude::*;

verus! {

/// The largest number of bytes that the length field of a message can announce.
pub const MAX_MESSAGE_LEN: usize = 0x7fff_ffff;

/// The version of the protocol, as the start-up message names it.
pub const PROTOCOL_VERSION: u32 = 196608;

/// The magic number of a request for encryption.
pub const SSL_REQUEST_CODE: u32 = 80877103;

/// `s` closed by a zero byte.
pub open spec fn cstr(s: Seq<u8>) -> Seq<u8> {
    s.push(0u8)
}

/// A message: its tag, the length of what follows counted with the length itself, and the
/// body.
pub open spec fn message(tag: u8, body: Seq<u8>) -> Seq<u8> {
    seq![tag] + u32_be((body.len() + 4) as u32) + body
}

/// A message without a tag, as it is used before the connection is set up.
pub open spec fn untagged(body: Seq<u8>) -> Seq<u8> {
    u32_be((body.len() + 4) as u32) + body
}

/// `Sync`: closes a series of extended-query messages.
pub open spec fn spec_sync() -> Seq<u8> {
    message(0x53, Seq::empty())
}

/// `Terminate`: ends the session.
pub open spec fn spec_terminate() -> Seq<u8> {
    message(0x58, Seq::empty())
}

/// `Query`: runs `cmd` as a simple query.
pub open spec fn spec_query(cmd: Seq<u8>) -> Seq<u8> {
    message(0x51, cstr(cmd))
}

/// The object identifiers `oids`, four bytes each.
pub open spec fn spec_oids(oids: Seq<u32>) -> Seq<u8>
    decreases oids.len(),
{
    if oids.len() == 0 {
        Seq::empty()
    } else {
        spec_oids(oids.drop_last()) + u32_be(oids.last())
    }
}

/// `Parse`: prepares `cmd` under the name `name`, with the given types of its parameters.
pub open spec fn spec_parse(name: Seq<u8>, cmd: Seq<u8>, oids: Seq<u32>) -> Seq<u8> {
    message(0x50, cstr(name) + cstr(cmd) + u16_be(oids.len() as u16) + spec_oids(oids))
}

/// `Describe`: asks for the description of the statement (`S`) or portal (`P`) `name`.
pub open spec fn spec_describe(variant: u8, name: Seq<u8>) -> Seq<u8> {
    message(0x44, seq![variant] + cstr(name))
}

/// `Close`: drops the statement (`S`) or portal (`P`) `name`.
pub open spec fn spec_close(variant: u8, name: Seq<u8>) -> Seq<u8> {
    message(0x43, seq![variant] + cstr(name))
}

/// `Execute`: runs the portal `portal` and asks for at most `max_rows` rows, zero meaning all.
pub open spec fn spec_execute(portal: Seq<u8>, max_rows: u32) -> Seq<u8> {
    message(0x45, cstr(portal) + u32_be(max_rows))
}

/// The values `params`, each behind its length; a missing value has the length -1 and no
/// bytes.
pub open spec fn spec_params(params: Seq<Option<&[u8]>>) -> Seq<u8>
    decreases params.len(),
{
    if params.len() == 0 {
        Seq::empty()
    } else {
        spec_params(params.drop_last()) + match params.last() {
            Some(value) => u32_be(value@.len() as u32) + value@,
            None => u32_be(0xffff_ffff),
        }
    }
}

/// `Bind`: binds `params` to the statement `name` as the portal `portal`. Every value goes and
/// comes in binary form.
pub open spec fn spec_bind(portal: Seq<u8>, name: Seq<u8>, params: Seq<Option<&[u8]>>) -> Seq<u8> {
    message(
        0x42,
        cstr(portal) + cstr(name) + u16_be(1) + u16_be(1) + u16_be(params.len() as u16)
            + spec_params(params) + u16_be(1) + u16_be(1),
    )
}

/// The request to switch to an encrypted channel.
pub open spec fn spec_encrypted_conn() -> Seq<u8> {
    untagged(u32_be(SSL_REQUEST_CODE))
}

/// The text `user`.
pub open spec fn user_key() -> Seq<u8> {
    seq![0x75u8, 0x73u8, 0x65u8, 0x72u8]
}

/// The text `database`.
pub open spec fn database_key() -> Seq<u8> {
    seq![0x64u8, 0x61u8, 0x74u8, 0x61u8, 0x62u8, 0x61u8, 0x73u8, 0x65u8]
}

/// The text `application_name`.
pub open spec fn application_name_key() -> Seq<u8> {
    seq![
        0x61u8,
        0x70u8,
        0x70u8,
        0x6cu8,
        0x69u8,
        0x63u8,
        0x61u8,
        0x74u8,
        0x69u8,
        0x6fu8,
        0x6eu8,
        0x5fu8,
        0x6eu8,
        0x61u8,
        0x6du8,
        0x65u8,
    ]
}

/// The body of the start-up message: the version of the protocol and the user, the database
/// and, unless it is empty, the name of the application, each behind its keyword, and a closing
/// zero byte.
pub open spec fn spec_initial_conn_body(user: Seq<u8>, db: Seq<u8>, app_name: Seq<u8>) -> Seq<u8> {
    u32_be(PROTOCOL_VERSION) + cstr(user_key()) + cstr(user) + cstr(database_key()) + cstr(db) + (
    if app_name.len() > 0 {
        cstr(application_name_key()) + cstr(app_name)
    } else {
        Seq::empty()
    }) + seq![0u8]
}

/// The start-up message.
pub open spec fn spec_initial_conn_msg(user: Seq<u8>, db: Seq<u8>, app_name: Seq<u8>) -> Seq<u8> {
    untagged(spec_initial_conn_body(user, db, app_name))
}

/// Appends `bytes` and a zero byte.
fn append_cstr(out: &mut Vec<u8>, bytes: &[u8])
    ensures
        final(out)@ == old(out)@ + cstr(bytes@),
{
    append_bytes(out, bytes);
    out.push(0);
    assert(out@ =~= old(out)@ + cstr(bytes@));
}

/// Appends the message with the tag `tag` and the body `body`, unless the body is longer than
/// a length field can tell.
pub fn write_message(out: &mut Vec<u8>, tag: u8, body: &[u8]) -> (r: Result<(), Error>)
    ensures
        match r {
            Ok(()) => body@.len() + 4 <= MAX_MESSAGE_LEN && final(out)@ == old(out)@ + message(
                tag,
                body@,
            ),
            Err(e) => body@.len() + 4 > MAX_MESSAGE_LEN && e == Error::CapacityOverflow && final(out)@ == old(out)@,
        },
{
    if body.len() > MAX_MESSAGE_LEN - 4 {
        return Err(Error::CapacityOverflow);
    }
    out.push(tag);
    append_bytes(out, u32_to_be((body.len() + 4) as u32).as_slice());
    append_bytes(out, body);
    assert(out@ =~= old(out)@ + message(tag, body@));
    Ok(())
}

/// Appends the message without a tag that has the body `body`, unless the body is longer than
/// a length field can tell.
pub fn write_untagged(out: &mut Vec<u8>, body: &[u8]) -> (r: Result<(), Error>)
    ensures
        match r {
            Ok(()) => body@.len() + 4 <= MAX_MESSAGE_LEN && final(out)@ == old(out)@ + untagged(
                body@,
            ),
            Err(e) => body@.len() + 4 > MAX_MESSAGE_LEN && e == Error::CapacityOverflow && final(out)@ == old(out)@,
        },
{
    if body.len() > MAX_MESSAGE_LEN - 4 {
        return Err(Error::CapacityOverflow);
    }
    append_bytes(out, u32_to_be((body.len() + 4) as u32).as_slice());
    append_bytes(out, body);
    assert(out@ =~= old(out)@ + untagged(body@));
    Ok(())
}

/// Appends a `Sync`.
pub fn sync(out: &mut Vec<u8>)
    ensures
        final(out)@ == old(out)@ + spec_sync(),
{
    let body: [u8; 0] = [];
    assert(body@ =~= Seq::<u8>::empty());
    let r = write_message(out, 0x53, body.as_slice());
    assert(r is Ok);
}

/// Appends a `Terminate`.
pub fn terminate(out: &mut Vec<u8>)
    ensures
        final(out)@ == old(out)@ + spec_terminate(),
{
    let body: [u8; 0] = [];
    assert(body@ =~= Seq::<u8>::empty());
    let r = write_message(out, 0x58, body.as_slice());
    assert(r is Ok);
}

/// Appends a `Query` for `cmd`.
pub fn query(out: &mut Vec<u8>, cmd: &[u8]) -> (r: Result<(), Error>)
    ensures
        match r {
            Ok(()) => final(out)@ == old(out)@ + spec_query(cmd@),
            Err(e) => e == Error::CapacityOverflow && final(out)@ == old(out)@,
        },
        r is Ok <==> cmd@.len() + 5 <= MAX_MESSAGE_LEN,
{
    let mut body: Vec<u8> = Vec::new();
    append_cstr(&mut body, cmd);
    assert(body@ =~= cstr(cmd@));
    write_message(out, 0x51, body.as_slice())
}

/// Appends a `Parse` that prepares `cmd` under the name `name`.
pub fn parse(out: &mut Vec<u8>, name: &[u8], cmd: &[u8], oids: &[u32]) -> (r: Result<(), Error>)
    ensures
        match r {
            Ok(()) => oids@.len() <= u16::MAX && final(out)@ == old(out)@ + spec_parse(
                name@,
                cmd@,
                oids@,
            ),
            Err(e) => e == Error::CapacityOverflow && final(out)@ == old(out)@,
        },
        r is Ok <==> oids@.len() <= u16::MAX && name@.len() + cmd@.len() + 4 * oids@.len() + 8
            <= MAX_MESSAGE_LEN,
{
    if oids.len() > 0xffff {
        return Err(Error::CapacityOverflow);
    }
    let mut body: Vec<u8> = Vec::new();
    append_cstr(&mut body, name);
    append_cstr(&mut body, cmd);
    append_bytes(&mut body, u16_to_be(oids.len() as u16).as_slice());
    let ghost head = body@;
    let mut i: usize = 0;
    while i < oids.len()
        invariant
            i <= oids@.len(),
            body@ == head + spec_oids(oids@.take(i as int)),
            body@.len() == head.len() + 4 * i,
        decreases oids@.len() - i,
    {
        proof {
            assert(oids@.take(i as int + 1).drop_last() =~= oids@.take(i as int));
        }
        append_bytes(&mut body, u32_to_be(oids[i]).as_slice());
        assert(body@ =~= head + spec_oids(oids@.take(i as int + 1)));
        i += 1;
    }
    proof {
        assert(oids@.take(oids@.len() as int) =~= oids@);
        assert(body@ =~= cstr(name@) + cstr(cmd@) + u16_be(oids@.len() as u16) + spec_oids(oids@));
    }
    write_message(out, 0x50, body.as_slice())
}

/// Appends a `Describe` for the statement (`S`) or portal (`P`) `name`.
pub fn describe(out: &mut Vec<u8>, variant: u8, name: &[u8]) -> (r: Result<(), Error>)
    ensures
        match r {
            Ok(()) => final(out)@ == old(out)@ + spec_describe(variant, name@),
            Err(e) => e == Error::CapacityOverflow && final(out)@ == old(out)@,
        },
        r is Ok <==> name@.len() + 6 <= MAX_MESSAGE_LEN,
{
    let mut body: Vec<u8> = Vec::new();
    body.push(variant);
    append_cstr(&mut body, name);
    assert(body@ =~= seq![variant] + cstr(name@));
    write_message(out, 0x44, body.as_slice())
}

/// Appends a `Close` for the statement (`S`) or portal (`P`) `name`.
pub fn close(out: &mut Vec<u8>, variant: u8, name: &[u8]) -> (r: Result<(), Error>)
    ensures
        match r {
            Ok(()) => final(out)@ == old(out)@ + spec_close(variant, name@),
            Err(e) => e == Error::CapacityOverflow && final(out)@ == old(out)@,
        },
        r is Ok <==> name@.len() + 6 <= MAX_MESSAGE_LEN,
{
    let mut body: Vec<u8> = Vec::new();
    body.push(variant);
    append_cstr(&mut body, name);
    assert(body@ =~= seq![variant] + cstr(name@));
    write_message(out, 0x43, body.as_slice())
}

/// Appends an `Execute` for the portal `portal`.
pub fn execute(out: &mut Vec<u8>, portal: &[u8], max_rows: u32) -> (r: Result<(), Error>)
    ensures
        match r {
            Ok(()) => final(out)@ == old(out)@ + spec_execute(portal@, max_rows),
            Err(e) => e == Error::CapacityOverflow && final(out)@ == old(out)@,
        },
        r is Ok <==> portal@.len() + 9 <= MAX_MESSAGE_LEN,
{
    let mut body: Vec<u8> = Vec::new();
    append_cstr(&mut body, portal);
    append_bytes(&mut body, u32_to_be(max_rows).as_slice());
    assert(body@ =~= cstr(portal@) + u32_be(max_rows));
    write_message(out, 0x45, body.as_slice())
}

/// If a `Bind` of `params` can be written: the values can be counted, the length of each can
/// be told, and so can the length of the whole message.
pub open spec fn bind_fits(portal: Seq<u8>, name: Seq<u8>, params: Seq<Option<&[u8]>>) -> bool {
    &&& params.len() <= u16::MAX
    &&& forall|i: int|
        0 <= i < params.len() ==> (#[trigger] params[i] matches Some(value) ==> value@.len()
            <= MAX_MESSAGE_LEN)
    &&& portal.len() + name.len() + spec_params(params).len() + 16 <= MAX_MESSAGE_LEN
}

/// Appends a `Bind` of `params` to the statement `name` as the portal `portal`. A value that
/// is longer than a length field can tell, or more values than can be counted, are refused.
pub fn bind(out: &mut Vec<u8>, portal: &[u8], name: &[u8], params: &[Option<&[u8]>]) -> (r:
    Result<(), Error>)
    ensures
        match r {
            Ok(()) => final(out)@ == old(out)@ + spec_bind(portal@, name@, params@),
            Err(e) => e == Error::CapacityOverflow && final(out)@ == old(out)@,
        },
        r is Ok <==> bind_fits(portal@, name@, params@),
{
    if params.len() > 0xffff {
        return Err(Error::CapacityOverflow);
    }
    let mut body: Vec<u8> = Vec::new();
    append_cstr(&mut body, portal);
    append_cstr(&mut body, name);
    append_bytes(&mut body, u16_to_be(1).as_slice());
    append_bytes(&mut body, u16_to_be(1).as_slice());
    append_bytes(&mut body, u16_to_be(params.len() as u16).as_slice());
    let ghost head = body@;
    let mut i: usize = 0;
    while i < params.len()
        invariant
            i <= params@.len(),
            params@.len() <= u16::MAX,
            head.len() == portal@.len() + name@.len() + 8,
            body@ == head + spec_params(params@.take(i as int)),
            forall|j: int|
                0 <= j < i ==> (#[trigger] params@[j] matches Some(value) ==> value@.len()
                    <= MAX_MESSAGE_LEN),
        decreases params@.len() - i,
    {
        proof {
            assert(params@.take(i as int + 1).drop_last() =~= params@.take(i as int));
        }
        match params[i] {
            Some(value) => {
                if value.len() > MAX_MESSAGE_LEN {
                    return Err(Error::CapacityOverflow);
                }
                append_bytes(&mut body, u32_to_be(value.len() as u32).as_slice());
                append_bytes(&mut body, value);
            },
            None => {
                append_bytes(&mut body, u32_to_be(0xffff_ffff).as_slice());
            },
        }
        assert(body@ =~= head + spec_params(params@.take(i as int + 1)));
        i += 1;
    }
    append_bytes(&mut body, u16_to_be(1).as_slice());
    append_bytes(&mut body, u16_to_be(1).as_slice());
    proof {
        assert(params@.take(params@.len() as int) =~= params@);
        assert(body@ =~= cstr(portal@) + cstr(name@) + u16_be(1) + u16_be(1) + u16_be(
            params@.len() as u16,
        ) + spec_params(params@) + u16_be(1) + u16_be(1));
    }
    write_message(out, 0x42, body.as_slice())
}

/// Appends the request to switch to an encrypted channel.
pub fn encrypted_conn(out: &mut Vec<u8>)
    ensures
        final(out)@ == old(out)@ + spec_encrypted_conn(),
{
    let r = write_untagged(out, u32_to_be(SSL_REQUEST_CODE).as_slice());
    assert(r is Ok);
}

/// If the start-up message for these names can be written.
pub open spec fn initial_conn_fits(user: Seq<u8>, db: Seq<u8>, app_name: Seq<u8>) -> bool {
    spec_initial_conn_body(user, db, app_name).len() + 4 <= MAX_MESSAGE_LEN
}

/// Appends the start-up message for `config`.
pub fn initial_conn_msg(out: &mut Vec<u8>, config: &Config<'_>) -> (r: Result<(), Error>)
    ensures
        match r {
            Ok(()) => final(out)@ == old(out)@ + spec_initial_conn_msg(
                config.user@,
                config.db@,
                config.app_name@,
            ),
            Err(e) => e == Error::CapacityOverflow && final(out)@ == old(out)@,
        },
        r is Ok <==> initial_conn_fits(config.user@, config.db@, config.app_name@),
{
    let user_key: [u8; 4] = [0x75, 0x73, 0x65, 0x72];
    let database_key: [u8; 8] = [0x64, 0x61, 0x74, 0x61, 0x62, 0x61, 0x73, 0x65];
    let application_name_key: [u8; 16] = [
        0x61,
        0x70,
        0x70,
        0x6c,
        0x69,
        0x63,
        0x61,
        0x74,
        0x69,
        0x6f,
        0x6e,
        0x5f,
        0x6e,
        0x61,
        0x6d,
        0x65,
    ];
    proof {
        assert(user_key@ =~= self::user_key());
        assert(database_key@ =~= self::database_key());
        assert(application_name_key@ =~= self::application_name_key());
    }
    let mut body: Vec<u8> = Vec::new();
    append_bytes(&mut body, u32_to_be(PROTOCOL_VERSION).as_slice());
    append_cstr(&mut body, user_key.as_slice());
    append_cstr(&mut body, config.user);
    append_cstr(&mut body, database_key.as_slice());
    append_cstr(&mut body, config.db);
    if config.app_name.len() > 0 {
        append_cstr(&mut body, application_name_key.as_slice());
        append_cstr(&mut body, config.app_name);
    }
    body.push(0);
    proof {
        assert(body@ =~= spec_initial_conn_body(config.user@, config.db@, config.app_name@));
    }
    write_untagged(out, body.as_slice())
}

/// `SASLInitialResponse`: the mechanism that the client picked and what it says first.
pub open spec fn spec_sasl_first(mechanism: Seq<u8>, client_first: Seq<u8>) -> Seq<u8> {
    message(0x70, cstr(mechanism) + u32_be(client_first.len() as u32) + client_first)
}

/// `SASLResponse`: what the client says next.
pub open spec fn spec_sasl_second(data: Seq<u8>) -> Seq<u8> {
    message(0x70, data)
}

/// Appends a `SASLInitialResponse`.
pub fn sasl_first(out: &mut Vec<u8>, mechanism: &[u8], client_first: &[u8]) -> (r: Result<
    (),
    Error,
>)
    ensures
        match r {
            Ok(()) => final(out)@ == old(out)@ + spec_sasl_first(mechanism@, client_first@),
            Err(e) => e == Error::CapacityOverflow && final(out)@ == old(out)@,
        },
        r is Ok <==> mechanism@.len() + client_first@.len() + 9 <= MAX_MESSAGE_LEN,
{
    if client_first.len() > MAX_MESSAGE_LEN {
        return Err(Error::CapacityOverflow);
    }
    let mut body: Vec<u8> = Vec::new();
    append_cstr(&mut body, mechanism);
    append_bytes(&mut body, u32_to_be(client_first.len() as u32).as_slice());
    append_bytes(&mut body, client_first);
    assert(body@ =~= cstr(mechanism@) + u32_be(client_first@.len() as u32) + client_first@);
    write_message(out, 0x70, body.as_slice())
}

/// Appends a `SASLResponse`.
pub fn sasl_second(out: &mut Vec<u8>, data: &[u8]) -> (r: Result<(), Error>)
    ensures
        match r {
            Ok(()) => final(out)@ == old(out)@ + spec_sasl_second(data@),
            Err(e) => e == Error::CapacityOverflow && final(out)@ == old(out)@,
        },
        r is Ok <==> data@.len() + 4 <= MAX_MESSAGE_LEN,
{
    write_message(out, 0x70, data)
}

/// `PasswordMessage`: what shows that the password is known.
pub open spec fn spec_password(shown: Seq<u8>) -> Seq<u8> {
    message(0x70, cstr(shown))
}

/// Appends a `PasswordMessage`.
pub fn password(out: &mut Vec<u8>, shown: &[u8]) -> (r: Result<(), Error>)
    ensures
        match r {
            Ok(()) => final(out)@ == old(out)@ + spec_password(shown@),
            Err(e) => e == Error::CapacityOverflow && final(out)@ == old(out)@,
        },
        r is Ok <==> shown@.len() + 5 <= MAX_MESSAGE_LEN,
{
    let mut body: Vec<u8> = Vec::new();
    append_cstr(&mut body, shown);
    write_message(out, 0x70, body.as_slice())
}

} // verus!
