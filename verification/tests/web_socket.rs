use wtx::misc::{BytesStream, Rng, Stream, Xorshift64};
use wtx::web_socket::compression::{compress_message, compressed_frame, decompress_message};
use wtx::web_socket::frame::append_masked;
use wtx::web_socket::read::{check_close_payload, ReaderConfig, Reassembly};
use wtx::web_socket::web_socket_parts::web_socket_part::whole_len;
use wtx::web_socket::web_socket_parts::{WebSocketCommonPart, WebSocketReaderPart, WebSocketWriterPart};
use wtx::web_socket::write::{draw_keys, encode_message, encode_message_with, piece_len};
use wtx::web_socket::{
    ConnectionState, Frame, FrameHeader, OpCode, WebSocketCommonPartOwned, WebSocketReaderPartOwned,
    WebSocketWriterPartOwned,
};
use wtx::{Error, WebSocketError};

const SERVER: ReaderConfig =
    ReaderConfig { is_client: false, has_compression: false, max_payload_len: 1 << 20 };
const CLIENT: ReaderConfig =
    ReaderConfig { is_client: true, has_compression: false, max_payload_len: 1 << 20 };

fn protocol(error: WebSocketError) -> Error {
    Error::WebSocketProtocol(error)
}

fn frame(fin: bool, op_code: OpCode, payload: &[u8]) -> Frame {
    Frame { fin, op_code, payload: payload.to_vec(), rsv1: false }
}

fn wire(frame: &Frame, mask: Option<[u8; 4]>) -> Vec<u8> {
    let mut out = Vec::new();
    frame.encode(mask, &mut out).unwrap();
    out
}

fn server_reader(bytes: &[u8]) -> WebSocketReaderPartOwned<BytesStream> {
    let mut stream = BytesStream::new();
    stream.write_all(bytes).unwrap();
    WebSocketReaderPartOwned::new(SERVER, stream)
}

fn common(is_client: bool, max_frame_len: usize) -> WebSocketCommonPartOwned<BytesStream> {
    WebSocketCommonPartOwned {
        wsc: WebSocketCommonPart::new(
            is_client,
            max_frame_len,
            false,
            Xorshift64::from(1),
            BytesStream::new(),
        ),
    }
}

fn written(common: &mut WebSocketCommonPartOwned<BytesStream>) -> Vec<u8> {
    let mut bytes = vec![0; common.wsc.stream_writer.len()];
    common.wsc.stream_writer.read(&mut bytes).unwrap();
    bytes
}

#[test]
fn op_codes_and_their_bits() {
    for (op_code, bits) in [
        (OpCode::Continuation, 0),
        (OpCode::Text, 1),
        (OpCode::Binary, 2),
        (OpCode::Close, 8),
        (OpCode::Ping, 9),
        (OpCode::Pong, 10),
    ] {
        assert_eq!(op_code.bits(), bits);
        assert_eq!(OpCode::from_bits(bits), Ok(op_code));
        assert_eq!(op_code.is_control(), bits >= 8);
    }
    for bits in [3, 4, 5, 6, 7, 11, 12, 13, 14, 15, 16, 255] {
        assert_eq!(OpCode::from_bits(bits), Err(protocol(WebSocketError::InvalidOpCode)));
    }
}

#[test]
fn a_single_unmasked_text_frame() {
    let hello = frame(true, OpCode::Text, b"Hello");
    assert_eq!(wire(&hello, None), [0x81, 0x05, 0x48, 0x65, 0x6c, 0x6c, 0x6f]);
    assert_eq!(
        Frame::decode(&[0x81, 0x05, 0x48, 0x65, 0x6c, 0x6c, 0x6f, 0xff]),
        Ok(Some((hello, 7)))
    );
}

#[test]
fn a_single_masked_text_frame() {
    let hello = frame(true, OpCode::Text, b"Hello");
    let bytes = [0x81, 0x85, 0x37, 0xfa, 0x21, 0x3d, 0x7f, 0x9f, 0x4d, 0x51, 0x58];
    assert_eq!(wire(&hello, Some([0x37, 0xfa, 0x21, 0x3d])), bytes);
    assert_eq!(Frame::decode(&bytes), Ok(Some((hello, 11))));
}

#[test]
fn lengths_take_the_shortest_form() {
    let header = |payload_len: u64, mask: Option<[u8; 4]>| {
        let mut out = Vec::new();
        FrameHeader { fin: false, rsv1: true, op_code: OpCode::Binary, mask, payload_len }
            .encode(&mut out);
        out
    };
    assert_eq!(header(0, None), [0x42, 0]);
    assert_eq!(header(125, None), [0x42, 125]);
    assert_eq!(header(126, None), [0x42, 126, 0, 126]);
    assert_eq!(header(65535, Some([1, 2, 3, 4])), [0x42, 254, 255, 255, 1, 2, 3, 4]);
    assert_eq!(header(65536, None), [0x42, 127, 0, 0, 0, 0, 0, 1, 0, 0]);
    assert_eq!(
        header(0x7fff_ffff_ffff_ffff, Some([9, 8, 7, 6])),
        [0x42, 255, 0x7f, 255, 255, 255, 255, 255, 255, 255, 9, 8, 7, 6]
    );
}

#[test]
fn headers_are_read_back() {
    for payload_len in [0, 1, 125, 126, 127, 65535, 65536, 1 << 40, 0x7fff_ffff_ffff_ffff] {
        for mask in [None, Some([0xde, 0xad, 0xbe, 0xef])] {
            for (fin, rsv1, op_code) in
                [(true, false, OpCode::Text), (false, true, OpCode::Continuation), (true, true, OpCode::Pong)]
            {
                let header = FrameHeader { fin, rsv1, op_code, mask, payload_len };
                let mut out = Vec::new();
                header.encode(&mut out);
                let len = out.len();
                out.push(0x55);
                assert_eq!(FrameHeader::decode(&out), Ok(Some((header, len))));
                assert_eq!(FrameHeader::decode(&out[..len - 1]), Ok(None));
            }
        }
    }
}

#[test]
fn headers_that_break_the_rules_are_refused() {
    assert_eq!(FrameHeader::decode(&[]), Ok(None));
    assert_eq!(FrameHeader::decode(&[0x81]), Ok(None));
    assert_eq!(
        FrameHeader::decode(&[0xa1, 0]),
        Err(protocol(WebSocketError::ReservedBitsAreNotZero))
    );
    assert_eq!(
        FrameHeader::decode(&[0x91, 0]),
        Err(protocol(WebSocketError::ReservedBitsAreNotZero))
    );
    assert_eq!(FrameHeader::decode(&[0x83, 0]), Err(protocol(WebSocketError::InvalidOpCode)));
    assert_eq!(
        FrameHeader::decode(&[0x82, 127, 0x80, 0, 0, 0, 0, 0, 0, 0]),
        Err(protocol(WebSocketError::InvalidPayloadLength))
    );
}

#[test]
fn frames_are_read_back_for_every_code_and_flag() {
    let payloads: [&[u8]; 4] = [b"", b"x", &[7; 126], &[0xff; 70000]];
    for payload in payloads {
        for op_code in [OpCode::Continuation, OpCode::Text, OpCode::Binary, OpCode::Ping] {
            for fin in [false, true] {
                for mask in [None, Some([1, 2, 3, 4]), Some([0, 0, 0, 0])] {
                    let frame = Frame { fin, op_code, payload: payload.to_vec(), rsv1: !fin };
                    let mut bytes = wire(&frame, mask);
                    let len = bytes.len();
                    assert_eq!(Frame::decode(&bytes[..len - usize::from(len > 2)]).is_ok(), true);
                    bytes.extend_from_slice(&[1, 2, 3]);
                    assert_eq!(Frame::decode(&bytes), Ok(Some((frame, len))));
                }
            }
        }
    }
    assert_eq!(Frame::decode(&[0x81, 0x02, 0x48]), Ok(None));
}

#[test]
fn masking_twice_gives_the_bytes_back() {
    let key = Some([0x12, 0x34, 0x56, 0x78]);
    let mut once = Vec::new();
    append_masked(&mut once, b"\x00\x01\x02\x03\x04", key);
    assert_eq!(once, [0x12, 0x35, 0x54, 0x7b, 0x16]);
    let mut twice = Vec::new();
    append_masked(&mut twice, &once, key);
    assert_eq!(twice, [0, 1, 2, 3, 4]);
    let mut plain = vec![9];
    append_masked(&mut plain, &[1, 2], None);
    assert_eq!(plain, [9, 1, 2]);
}

#[test]
fn websocket_control_frame_with_126_bytes_is_a_protocol_error() {
    let mut state = Reassembly::new();
    assert_eq!(
        state.on_frame(&SERVER, true, frame(true, OpCode::Ping, &[0; 126])),
        Err(protocol(WebSocketError::InvalidControlFrame))
    );
    assert_eq!(
        state.on_frame(&SERVER, true, frame(true, OpCode::Ping, &[0; 125])),
        Ok(Some(frame(true, OpCode::Ping, &[0; 125])))
    );
    let mut bytes = vec![0x89, 0xfe, 0, 126, 1, 2, 3, 4];
    bytes.extend_from_slice(&[0; 126]);
    assert_eq!(
        server_reader(&bytes).read_next(),
        Err(protocol(WebSocketError::InvalidControlFrame))
    );
}

#[test]
fn control_frames_must_be_whole_and_uncompressed() {
    let mut state = Reassembly::new();
    assert_eq!(
        state.on_frame(&SERVER, true, frame(false, OpCode::Pong, b"")),
        Err(protocol(WebSocketError::InvalidControlFrame))
    );
    let compressed = Frame { rsv1: true, ..frame(true, OpCode::Ping, b"") };
    let config = ReaderConfig { has_compression: true, ..SERVER };
    assert_eq!(
        state.on_frame(&config, true, compressed),
        Err(protocol(WebSocketError::UnexpectedCompressionBit))
    );
}

#[test]
fn the_mask_bit_has_to_fit_the_role() {
    let mut state = Reassembly::new();
    let text = frame(true, OpCode::Text, b"a");
    assert_eq!(
        state.on_frame(&SERVER, false, text.clone()),
        Err(protocol(WebSocketError::InvalidMaskBit))
    );
    assert_eq!(
        state.on_frame(&CLIENT, true, text.clone()),
        Err(protocol(WebSocketError::InvalidMaskBit))
    );
    assert_eq!(state.on_frame(&SERVER, true, text.clone()), Ok(Some(text.clone())));
    assert_eq!(state.on_frame(&CLIENT, false, text.clone()), Ok(Some(text)));
}

#[test]
fn websocket_fragmentation() {
    let mut state = Reassembly::new();
    assert_eq!(state.on_frame(&SERVER, true, frame(false, OpCode::Text, b"foo")), Ok(None));
    assert!(state.is_open());
    assert_eq!(
        state.on_frame(&SERVER, true, frame(true, OpCode::Continuation, b"bar")),
        Ok(Some(frame(true, OpCode::Text, b"foobar")))
    );
    assert!(!state.is_open());

    let mut bytes = wire(&frame(false, OpCode::Text, b"foo"), Some([1, 2, 3, 4]));
    bytes.extend(wire(&frame(true, OpCode::Continuation, b"bar"), Some([5, 6, 7, 8])));
    let mut reader = server_reader(&bytes);
    assert_eq!(reader.read_next(), Ok(frame(true, OpCode::Text, b"foobar")));
}

#[test]
fn reassembled_payload_is_the_concatenation_of_the_fragments() {
    let mut state = Reassembly::new();
    assert_eq!(state.on_frame(&CLIENT, false, frame(false, OpCode::Binary, &[1])), Ok(None));
    assert_eq!(state.on_frame(&CLIENT, false, frame(false, OpCode::Continuation, &[])), Ok(None));
    assert_eq!(
        state.on_frame(&CLIENT, false, frame(false, OpCode::Continuation, &[2, 3])),
        Ok(None)
    );
    assert_eq!(
        state.on_frame(&CLIENT, false, frame(true, OpCode::Continuation, &[4])),
        Ok(Some(frame(true, OpCode::Binary, &[1, 2, 3, 4])))
    );
}

#[test]
fn control_frames_pass_through_an_open_message() {
    let mut state = Reassembly::new();
    assert_eq!(state.on_frame(&SERVER, true, frame(false, OpCode::Text, b"a")), Ok(None));
    assert_eq!(
        state.on_frame(&SERVER, true, frame(true, OpCode::Ping, b"p")),
        Ok(Some(frame(true, OpCode::Ping, b"p")))
    );
    assert!(state.is_open());
    assert_eq!(
        state.on_frame(&SERVER, true, frame(true, OpCode::Continuation, b"b")),
        Ok(Some(frame(true, OpCode::Text, b"ab")))
    );
}

#[test]
fn data_frames_must_not_interleave() {
    let mut state = Reassembly::new();
    assert_eq!(
        state.on_frame(&SERVER, true, frame(true, OpCode::Continuation, b"")),
        Err(protocol(WebSocketError::UnexpectedContinuation))
    );
    assert_eq!(state.on_frame(&SERVER, true, frame(false, OpCode::Text, b"a")), Ok(None));
    assert_eq!(
        state.on_frame(&SERVER, true, frame(true, OpCode::Binary, b"b")),
        Err(protocol(WebSocketError::UnexpectedDataFrame))
    );
    assert_eq!(
        state.on_frame(&SERVER, true, frame(true, OpCode::Continuation, b"c")),
        Ok(Some(frame(true, OpCode::Text, b"ac")))
    );
}

#[test]
fn messages_are_bounded() {
    let config = ReaderConfig { max_payload_len: 3, ..SERVER };
    let mut state = Reassembly::new();
    assert_eq!(
        state.on_frame(&config, true, frame(true, OpCode::Text, b"abcd")),
        Err(protocol(WebSocketError::FrameTooLarge))
    );
    assert_eq!(state.on_frame(&config, true, frame(false, OpCode::Text, b"ab")), Ok(None));
    assert_eq!(
        state.on_frame(&config, true, frame(false, OpCode::Continuation, b"cd")),
        Err(protocol(WebSocketError::FrameTooLarge))
    );
    assert_eq!(
        state.on_frame(&config, true, frame(true, OpCode::Continuation, b"c")),
        Ok(Some(frame(true, OpCode::Text, b"abc")))
    );
}

#[test]
fn compressed_messages_get_the_deflate_tail() {
    let config = ReaderConfig { has_compression: true, ..SERVER };
    let mut state = Reassembly::new();
    let first = Frame { rsv1: true, ..frame(false, OpCode::Binary, &[1, 2]) };
    assert_eq!(
        state.on_frame(&SERVER, true, first.clone()),
        Err(protocol(WebSocketError::UnexpectedCompressionBit))
    );
    assert_eq!(state.on_frame(&config, true, first), Ok(None));
    assert_eq!(
        state.on_frame(&config, true, Frame { rsv1: true, ..frame(true, OpCode::Continuation, &[3]) }),
        Err(protocol(WebSocketError::UnexpectedCompressionBit))
    );
    assert_eq!(
        state.on_frame(&config, true, frame(true, OpCode::Continuation, &[3])),
        Ok(Some(Frame { rsv1: true, ..frame(true, OpCode::Binary, &[1, 2, 3, 0, 0, 0xff, 0xff]) }))
    );
    assert_eq!(
        state.on_frame(&config, true, Frame { rsv1: true, ..frame(true, OpCode::Text, b"x") }),
        Ok(Some(Frame { rsv1: true, ..frame(true, OpCode::Text, b"x\0\0\xff\xff") }))
    );
}

#[test]
fn close_payloads_carry_nothing_or_a_valid_status() {
    assert!(check_close_payload(&[]));
    assert!(!check_close_payload(&[3]));
    for (code, is_valid) in [
        (999u16, false),
        (1000, true),
        (1003, true),
        (1004, false),
        (1006, false),
        (1007, true),
        (1014, true),
        (1015, false),
        (2999, false),
        (3000, true),
        (4999, true),
        (5000, false),
    ] {
        let mut payload = code.to_be_bytes().to_vec();
        assert_eq!(check_close_payload(&payload), is_valid);
        payload.extend_from_slice(b"reason");
        assert_eq!(check_close_payload(&payload), is_valid);
    }
    let mut state = Reassembly::new();
    assert_eq!(
        state.on_frame(&SERVER, true, frame(true, OpCode::Close, &[3, 237])),
        Err(protocol(WebSocketError::InvalidCloseFrame))
    );
}

#[test]
fn short_messages_travel_in_one_frame() {
    let mut rng = Xorshift64::from(1);
    let mut out = Vec::new();
    let mut keys = vec![[9; 4]];
    encode_message(&frame(true, OpCode::Text, b"Hello"), false, 125, &mut rng, &mut keys, &mut out)
        .unwrap();
    assert_eq!(out, [0x81, 0x05, 0x48, 0x65, 0x6c, 0x6c, 0x6f]);
    assert_eq!(rng, Xorshift64::from(1));
    assert!(keys.is_empty());
}

#[test]
fn long_messages_are_cut_into_continuations() {
    let mut rng = Xorshift64::from(1);
    let mut out = vec![0xee];
    let mut keys = Vec::new();
    let binary = frame(true, OpCode::Binary, &[1, 2, 3, 4, 5]);
    encode_message(&binary, false, 2, &mut rng, &mut keys, &mut out).unwrap();
    assert_eq!(out, [0xee, 0x02, 2, 1, 2, 0x00, 2, 3, 4, 0x80, 1, 5]);
    out.clear();
    let text = frame(false, OpCode::Text, &[1, 2, 3, 4]);
    encode_message(&text, false, 2, &mut rng, &mut keys, &mut out).unwrap();
    assert_eq!(out, [0x01, 2, 1, 2, 0x00, 2, 3, 4]);
    out.clear();
    encode_message(&frame(true, OpCode::Text, &[1]), false, 0, &mut rng, &mut keys, &mut out)
        .unwrap();
    assert_eq!(out, [0x81, 1, 1]);
}

#[test]
fn a_client_masks_every_frame_with_a_key_of_its_own() {
    let mut rng = Xorshift64::from(1);
    let mut source = Xorshift64::from(1);
    let mut first = [0; 4];
    source.fill_slice(&mut first);
    let mut second = [0; 4];
    source.fill_slice(&mut second);
    assert_ne!(first, second);
    let mut out = Vec::new();
    let mut keys = vec![[9; 4]; 5];
    encode_message(&frame(true, OpCode::Text, b"abc"), true, 2, &mut rng, &mut keys, &mut out)
        .unwrap();
    assert_eq!(keys, [first, second]);
    let mut expected = wire(&frame(false, OpCode::Text, b"ab"), Some(first));
    expected.extend(wire(&frame(true, OpCode::Continuation, b"c"), Some(second)));
    assert_eq!(out, expected);
    assert_eq!(rng, source);
}

#[test]
fn control_frames_are_never_cut() {
    let mut rng = Xorshift64::from(1);
    let mut out = vec![1];
    let mut keys = vec![[7; 4]];
    let ping = frame(true, OpCode::Ping, &[0; 126]);
    assert_eq!(
        encode_message(&ping, true, 10, &mut rng, &mut keys, &mut out),
        Err(protocol(WebSocketError::InvalidControlFrame))
    );
    let close = frame(false, OpCode::Close, &[]);
    assert_eq!(
        encode_message(&close, true, 10, &mut rng, &mut keys, &mut out),
        Err(protocol(WebSocketError::InvalidControlFrame))
    );
    assert_eq!(out, [1]);
    assert_eq!(keys, [[7; 4]]);
    assert_eq!(rng, Xorshift64::from(1));
}

#[test]
fn what_a_client_writes_a_server_reads() {
    let mut client = common(true, 3);
    let mut writer = WebSocketWriterPartOwned::new();
    writer.write_frame(&mut client, &frame(true, OpCode::Text, b"fragmented")).unwrap();
    writer.write_frame(&mut client, &frame(true, OpCode::Ping, b"")).unwrap();
    let bytes = written(&mut client);
    let mut reader = server_reader(&bytes);
    assert_eq!(reader.read_next(), Ok(frame(true, OpCode::Text, b"fragmented")));
    assert_eq!(reader.read_next(), Ok(frame(true, OpCode::Ping, b"")));
    assert_eq!(reader.read_next(), Err(Error::UnexpectedBufferState));
}

#[test]
fn close_is_echoed_with_its_status() {
    let mut bytes = wire(&frame(true, OpCode::Close, &[0x03, 0xe9, b'b', b'y', b'e']), Some([1; 4]));
    bytes.extend(wire(&frame(true, OpCode::Text, b"late"), Some([2; 4])));
    let mut reader = server_reader(&bytes);
    let mut server = common(false, 125);
    let close = reader.read_frame(&mut server).unwrap();
    assert_eq!(close.op_code, OpCode::Close);
    assert_eq!(server.wsc.connection_state, ConnectionState::Closed);
    assert_eq!(written(&mut server), [0x88, 0x02, 0x03, 0xe9]);
    let mut writer = WebSocketWriterPartOwned::new();
    assert_eq!(
        writer.write_frame(&mut server, &frame(true, OpCode::Text, b"x")),
        Err(protocol(WebSocketError::ConnectionClosed))
    );
    assert!(written(&mut server).is_empty());
}

#[test]
fn close_without_a_status_is_echoed_as_normal() {
    let mut server = common(false, 125);
    let mut scratch = Vec::new();
    server.wsc.manage_close(&mut scratch, &[]).unwrap();
    assert_eq!(written(&mut server), [0x88, 0x02, 0x03, 0xe8]);
    assert_eq!(server.wsc.connection_state, ConnectionState::Closed);
}

#[test]
fn the_echo_of_an_own_close_is_not_echoed() {
    let mut client = common(true, 125);
    let mut writer = WebSocketWriterPart::new();
    writer.write_frame(&mut client.wsc, &frame(true, OpCode::Close, &[0x03, 0xe8])).unwrap();
    assert_eq!(client.wsc.connection_state, ConnectionState::Closing);
    assert_eq!(written(&mut client).len(), 8);
    assert_eq!(
        writer.write_frame(&mut client.wsc, &frame(true, OpCode::Ping, b"")),
        Err(protocol(WebSocketError::ConnectionClosed))
    );
    let mut stream = BytesStream::new();
    stream.write_all(&[0x88, 0x02, 0x03, 0xe8]).unwrap();
    let mut reader = WebSocketReaderPart::new(CLIENT);
    let mut scratch = Vec::new();
    let echo = reader.read_frame_from_parts(&mut client.wsc, &mut stream, &mut scratch).unwrap();
    assert_eq!(echo, frame(true, OpCode::Close, &[0x03, 0xe8]));
    assert_eq!(client.wsc.connection_state, ConnectionState::Closed);
    assert!(written(&mut client).is_empty());
}

#[test]
fn frames_larger_than_the_limit_are_refused_before_they_are_read() {
    let mut stream = BytesStream::new();
    stream.write_all(&[0x82, 0xfe, 0xff, 0xff, 1, 2, 3, 4]).unwrap();
    let config = ReaderConfig { max_payload_len: 1000, ..SERVER };
    let mut reader = WebSocketReaderPartOwned::new(config, stream);
    assert_eq!(reader.read_next(), Err(protocol(WebSocketError::FrameTooLarge)));
}

#[test]
fn compressed_messages_are_decompressed() {
    let tail = [0x00, 0x00, 0xff, 0xff];
    let flushed = [&[0xf2, 0x48, 0xcd, 0xc9, 0xc9, 0x07, 0x00][..], &tail].concat();
    let marked = |payload: &[u8]| Frame { rsv1: true, ..frame(true, OpCode::Text, payload) };
    assert_eq!(decompress_message(marked(&flushed), 5), Ok(frame(true, OpCode::Text, b"Hello")));
    let closed = [&[0xf3, 0x48, 0xcd, 0xc9, 0xc9, 0x07, 0x00, 0x00][..], &tail].concat();
    assert_eq!(decompress_message(marked(&closed), 100), Ok(frame(true, OpCode::Text, b"Hello")));
    assert_eq!(
        decompress_message(marked(&flushed), 4),
        Err(protocol(WebSocketError::FrameTooLarge))
    );
    assert_eq!(
        decompress_message(marked(&[0xff, 0xff, 0xff]), 100),
        Err(protocol(WebSocketError::InvalidCompressedData))
    );
    assert_eq!(
        decompress_message(frame(true, OpCode::Text, &flushed), 100),
        Ok(frame(true, OpCode::Text, &flushed))
    );
    let empty = [&[0x00][..], &tail].concat();
    assert_eq!(decompress_message(marked(&empty), usize::MAX), Ok(frame(true, OpCode::Text, b"")));
    assert_eq!(
        decompress_message(marked(&tail), 100),
        Err(protocol(WebSocketError::InvalidCompressedData))
    );
}

#[test]
fn compressed_frames_close_their_stream_with_one_byte() {
    let hello = Frame { rsv1: true, ..frame(true, OpCode::Binary, b"Hello") };
    let sent = compressed_frame(&hello, Some(vec![1, 2, 3]));
    assert_eq!(sent, Frame { rsv1: true, ..frame(true, OpCode::Binary, &[1, 2, 3, 0]) });
    assert_eq!(compressed_frame(&hello, None), frame(true, OpCode::Binary, b"Hello"));
    let compressed = compress_message(&hello);
    assert!(compressed.rsv1);
    assert_eq!(compressed.payload.last(), Some(&0));
    assert_ne!(compressed.payload, b"Hello\0");
    let mut payload = compressed.payload.clone();
    payload.extend_from_slice(&[0x00, 0x00, 0xff, 0xff]);
    assert_eq!(
        decompress_message(Frame { payload, ..compressed }, 5),
        Ok(frame(true, OpCode::Binary, b"Hello"))
    );
}

#[test]
fn what_is_written_compressed_is_read_decompressed() {
    let text = [b'a'; 1000];
    let mut client = common(true, 16);
    client.wsc.negotiated_compression = true;
    let mut writer = WebSocketWriterPartOwned::new();
    let message = Frame { rsv1: true, ..frame(true, OpCode::Text, &text) };
    writer.write_frame(&mut client, &message).unwrap();
    let bytes = written(&mut client);
    assert!(bytes.len() < 100);
    let mut stream = BytesStream::new();
    stream.write_all(&bytes).unwrap();
    let config = ReaderConfig { has_compression: true, ..SERVER };
    let mut reader = WebSocketReaderPartOwned::new(config, stream);
    assert_eq!(reader.read_next(), Ok(frame(true, OpCode::Text, &text)));
}

#[test]
fn compression_has_to_be_agreed_upon() {
    let mut client = common(true, 16);
    let mut writer = WebSocketWriterPartOwned::new();
    let message = Frame { rsv1: true, ..frame(true, OpCode::Text, b"x") };
    assert_eq!(
        writer.write_frame(&mut client, &message),
        Err(protocol(WebSocketError::UnexpectedCompressionBit))
    );
    assert!(written(&mut client).is_empty());
    assert_eq!(client.wsc.connection_state, ConnectionState::Open);
    assert_eq!(
        writer.write_frame(&mut client, &Frame { rsv1: true, ..frame(true, OpCode::Ping, b"") }),
        Err(protocol(WebSocketError::InvalidControlFrame))
    );
}

struct Counting(u8);

impl Rng for Counting {
    fn fill_slice(&mut self, bytes: &mut [u8]) {
        for byte in bytes {
            self.0 += 1;
            *byte = self.0;
        }
    }
}

#[test]
fn the_keys_come_from_the_source_that_was_handed_in() {
    let mut common = WebSocketCommonPart::new(true, 2, false, Counting(0), BytesStream::new());
    let mut writer = WebSocketWriterPart::new();
    writer.write_frame(&mut common, &frame(true, OpCode::Binary, &[1, 2, 3])).unwrap();
    assert_eq!(writer.keys, [[1, 2, 3, 4], [5, 6, 7, 8]]);
    let mut expected = wire(&frame(false, OpCode::Binary, &[1, 2]), Some([1, 2, 3, 4]));
    expected.extend(wire(&frame(true, OpCode::Continuation, &[3]), Some([5, 6, 7, 8])));
    assert_eq!(writer.compression_scratch, expected);
    let mut bytes = vec![0; common.stream_writer.len()];
    common.stream_writer.read(&mut bytes).unwrap();
    assert_eq!(bytes, expected);
    let mut scratch = Vec::new();
    common.manage_close(&mut scratch, &[0x03, 0xe9]).unwrap();
    assert_eq!(scratch, wire(&frame(true, OpCode::Close, &[0x03, 0xe9]), Some([9, 10, 11, 12])));
}

#[test]
fn a_key_is_drawn_for_every_piece() {
    let mut keys = vec![[0; 4]; 9];
    draw_keys(&mut Counting(0), &mut keys, 0, 3);
    assert_eq!(keys, [[1, 2, 3, 4]]);
    draw_keys(&mut Counting(0), &mut keys, 3, 3);
    assert_eq!(keys.len(), 1);
    draw_keys(&mut Counting(0), &mut keys, 4, 3);
    assert_eq!(keys, [[1, 2, 3, 4], [5, 6, 7, 8]]);
    draw_keys(&mut Counting(0), &mut keys, 7, 3);
    assert_eq!(keys.len(), 3);
    assert_eq!(piece_len(OpCode::Text, 0), 1);
    assert_eq!(piece_len(OpCode::Binary, 300), 300);
    assert_eq!(piece_len(OpCode::Ping, 3), 125);
    assert_eq!(piece_len(OpCode::Close, 0), 125);
}

#[test]
fn messages_are_masked_with_the_keys_that_are_given() {
    let mut out = Vec::new();
    let keys = [[1, 1, 1, 1], [2, 2, 2, 2], [3, 3, 3, 3]];
    encode_message_with(&frame(true, OpCode::Text, b"abcd"), true, 3, &keys, &mut out).unwrap();
    let mut expected = wire(&frame(false, OpCode::Text, b"abc"), Some([1, 1, 1, 1]));
    expected.extend(wire(&frame(true, OpCode::Continuation, b"d"), Some([2, 2, 2, 2])));
    assert_eq!(out, expected);
    out.clear();
    encode_message_with(&frame(true, OpCode::Text, b"abcd"), false, 3, &[], &mut out).unwrap();
    assert_eq!(out, [0x01, 3, b'a', b'b', b'c', 0x80, 1, b'd']);
}

#[test]
fn a_frame_that_follows_another_is_read_from_its_own_bytes() {
    let mut bytes = wire(&frame(true, OpCode::Text, &[b'x'; 300]), Some([1, 2, 3, 4]));
    bytes.extend(wire(&frame(true, OpCode::Binary, &[b'y'; 200]), Some([5, 6, 7, 8])));
    bytes.extend(wire(&frame(true, OpCode::Ping, b"p"), Some([9, 9, 9, 9])));
    let mut reader = server_reader(&bytes);
    assert_eq!(reader.read_next(), Ok(frame(true, OpCode::Text, &[b'x'; 300])));
    assert_eq!(reader.read_next(), Ok(frame(true, OpCode::Binary, &[b'y'; 200])));
    assert_eq!(reader.read_next(), Ok(frame(true, OpCode::Ping, b"p")));
}

struct Counted(BytesStream, usize);

impl Stream for Counted {
    fn read(&mut self, bytes: &mut [u8]) -> Result<usize, std::io::ErrorKind> {
        self.1 += 1;
        self.0.read(bytes)
    }

    fn write_all(&mut self, bytes: &[u8]) -> Result<(), std::io::ErrorKind> {
        self.0.write_all(bytes)
    }
}

#[test]
fn frames_that_arrive_together_are_read_together() {
    let mut bytes = wire(&frame(false, OpCode::Text, b"foo"), Some([1, 2, 3, 4]));
    bytes.extend(wire(&frame(true, OpCode::Continuation, b"bar"), Some([5, 6, 7, 8])));
    bytes.extend(wire(&frame(true, OpCode::Ping, b"p"), Some([9, 9, 9, 9])));
    let mut stream = Counted(BytesStream::new(), 0);
    stream.write_all(&bytes).unwrap();
    let mut reader = WebSocketReaderPartOwned::new(SERVER, stream);
    assert_eq!(reader.read_next(), Ok(frame(true, OpCode::Text, b"foobar")));
    assert_eq!(reader.stream_reader.1, 1);
    assert_eq!(reader.read_next(), Ok(frame(true, OpCode::Ping, b"p")));
    assert_eq!(reader.stream_reader.1, 1);
    assert_eq!(reader.stream_reader.0.len(), 0);
}

#[test]
fn frames_that_steer_the_connection_are_written_whole() {
    let mut client = common(true, 3);
    let mut writer = WebSocketWriterPartOwned::new();
    writer.write_frame(&mut client, &frame(true, OpCode::Ping, &[7; 125])).unwrap();
    assert_eq!(writer.wswp.keys.len(), 1);
    writer.write_frame(&mut client, &frame(true, OpCode::Text, &[8; 7])).unwrap();
    assert_eq!(writer.wswp.keys.len(), 3);
    let bytes = written(&mut client);
    let mut reader = server_reader(&bytes);
    assert_eq!(reader.read_next(), Ok(frame(true, OpCode::Ping, &[7; 125])));
    assert_eq!(reader.read_next(), Ok(frame(true, OpCode::Text, &[8; 7])));
    let mut server = common(false, 1);
    let mut scratch = Vec::new();
    server.wsc.manage_close(&mut scratch, &[0x03, 0xe9]).unwrap();
    assert_eq!(scratch, [0x88, 0x02, 0x03, 0xe9]);
}

#[test]
fn a_frame_is_as_long_as_its_header_and_its_payload() {
    let header = FrameHeader { fin: true, rsv1: false, op_code: OpCode::Binary, mask: None, payload_len: 300 };
    assert_eq!(whole_len(&header, 4, 300), Ok(304));
    assert_eq!(whole_len(&header, 8, 1000), Ok(308));
    assert_eq!(whole_len(&header, 4, 299), Err(protocol(WebSocketError::FrameTooLarge)));
    let huge = FrameHeader { payload_len: u64::MAX - 5, ..header };
    assert_eq!(whole_len(&huge, 10, usize::MAX), Err(protocol(WebSocketError::FrameTooLarge)));
}
