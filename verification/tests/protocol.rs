use bpsr_module_optimizer::capture::binary_reader::BinaryReader;
use bpsr_module_optimizer::capture::server::Server;
use bpsr_module_optimizer::error::AppError;
use bpsr_module_optimizer::protocol::constants::{extract_type, is_compressed};
use bpsr_module_optimizer::protocol::decoding::{
    decode_protobuf_int32, decode_protobuf_int64, decode_text,
};
use bpsr_module_optimizer::protocol::opcodes::{FragmentType, Pkt, PktEnvelope};
use bpsr_module_optimizer::protocol::packet_parser::process_packet;

fn conn() -> Server {
    Server::new([0, 0, 0, 0], 0, [0, 0, 0, 0], 0)
}

fn frame(kind: u16, body: &[u8]) -> Vec<u8> {
    let mut f = ((6 + body.len()) as u32).to_be_bytes().to_vec();
    f.extend_from_slice(&kind.to_be_bytes());
    f.extend_from_slice(body);
    f
}

fn notify(service: u64, method: u32, compressed: bool, content: &[u8]) -> Vec<u8> {
    let mut body = service.to_be_bytes().to_vec();
    body.extend_from_slice(&[0; 4]);
    body.extend_from_slice(&method.to_be_bytes());
    if compressed {
        body.extend_from_slice(&zstd::encode_all(content, 3).unwrap());
        frame(0x8002, &body)
    } else {
        body.extend_from_slice(content);
        frame(2, &body)
    }
}

fn down(compressed: bool, inner: &[u8]) -> Vec<u8> {
    let mut body = vec![0, 0, 0, 9];
    if compressed {
        body.extend_from_slice(&zstd::encode_all(inner, 3).unwrap());
        frame(0x8006, &body)
    } else {
        body.extend_from_slice(inner);
        frame(6, &body)
    }
}

fn parse(bytes: Vec<u8>) -> Vec<PktEnvelope> {
    process_packet(BinaryReader::from_bytes(bytes), conn())
}

#[test]
fn empty_stream_terminates() {
    let reader = BinaryReader::from_bytes(vec![]);
    let conn = Server::new([0, 0, 0, 0], 0, [0, 0, 0, 0], 0);
    assert!(process_packet(reader, conn).is_empty());
}

#[test]
fn messages_are_forwarded() {
    let mut stream = notify(0x63335342, 0x2d, false, &[1, 2]);
    stream.extend(notify(0x254C89A3, 1, false, &[3]));
    stream.extend(notify(0x63335342, 0x99, false, &[4]));
    stream.extend(notify(5, 0x2d, false, &[5]));
    stream.extend(frame(1, &[6]));
    stream.extend(notify(0x63335342, 0x15, true, b"hello hello hello"));
    stream.extend(&[0, 0]);
    let out = parse(stream);
    assert_eq!(out.len(), 3);
    assert!(out[0].op == Pkt::WorldDeltaBatch && out[0].data == vec![1, 2]);
    assert!(out[1].op == Pkt::SocialEnvelope && out[1].data == vec![3]);
    assert!(out[2].op == Pkt::WorldEnterSnapshot && out[2].data == b"hello hello hello");
    assert!(out[0].conn.unwrap() == conn());
}

#[test]
fn frames_inside_frames_are_opened() {
    let inner = notify(0x63335342, 0x06, false, &[7; 50]);
    for compressed in [false, true] {
        let mut stream = down(compressed, &inner);
        stream.extend(notify(0x63335342, 0x2e, false, &[8]));
        let out = parse(stream);
        assert_eq!(out.len(), 1, "the content takes the place of the rest");
        assert!(out[0].op == Pkt::WorldEntityBatch && out[0].data == vec![7; 50]);
    }
    let nested = down(true, &down(false, &inner));
    assert_eq!(parse(nested).len(), 1);
    let mut broken = frame(0x8006, &[0, 0, 0, 9, 1, 2, 3]);
    broken.extend(notify(0x63335342, 0x2e, false, &[8]));
    assert_eq!(parse(broken).len(), 1, "content that cannot be read is left out");
}

#[test]
fn short_and_false_lengths_stop_reading() {
    assert!(parse(vec![0, 0, 0, 5, 0, 2]).is_empty());
    assert!(parse(vec![0, 0, 0, 99, 0, 2, 0, 0]).is_empty());
}

#[test]
fn varints_are_read() {
    for n in [0u64, 1, 127, 128, 300, u32::MAX as u64, u64::MAX] {
        let mut raw = Vec::new();
        prost::encoding::encode_varint(n, &mut raw);
        assert_eq!(decode_protobuf_int64(&raw).unwrap(), n as i64);
        assert_eq!(decode_protobuf_int32(&raw).unwrap(), n as i32);
    }
    assert!(matches!(decode_protobuf_int32(&[]), Err(AppError::Parse(_))));
    assert!(matches!(decode_protobuf_int64(&[]), Err(AppError::Parse(_))));
    assert!(decode_protobuf_int32(&[0x80]).is_err());
    assert!(decode_protobuf_int64(&[0xFF; 11]).is_err());
}

#[test]
fn text_is_read() {
    assert_eq!(decode_text("ソラ".as_bytes().to_vec()).unwrap(), "ソラ");
    assert!(decode_text(vec![0xFF]).is_err());
}

#[test]
fn kinds_are_told() {
    assert!(Pkt::from_method(0x3003).unwrap() == Pkt::BuffTick);
    assert!(Pkt::try_from(0x06u32).unwrap() == Pkt::WorldEntityBatch);
    assert!(Pkt::try_from(0x07u32).is_err());
    let e = Pkt::from_method(0x99).unwrap_err();
    assert_eq!(e.message(), "Parse error: Unknown opcode: 0x00000099");
    assert!(FragmentType::from(2) == FragmentType::Notify);
    assert!(FragmentType::from(77) == FragmentType::Undefined);
    assert_eq!((extract_type(0x8006), is_compressed(0x8006)), (6, true));
    assert_eq!((extract_type(6), is_compressed(6)), (6, false));
}

#[test]
fn errors_have_texts() {
    let text = |e: AppError| e.message();
    assert_eq!(text(AppError::Capture("a".into())), "Capture error: a");
    assert_eq!(text(AppError::Engine("b".into())), "Engine error: b");
    assert_eq!(text(AppError::Io("c".into())), "IO error: c");
    assert_eq!(text(AppError::ProtobufDecode("d".into())), "Protobuf decode error: d");
    assert_eq!(text(AppError::LockPoisoned("e".into())), "Lock poisoned: e");
}

#[test]
fn a_frame_that_is_cut_off_ends_the_stream() {
    let mut stream = notify(0x63335342, 0x2d, false, &[1, 2]);
    let whole = stream.len();
    stream.extend(notify(0x63335342, 0x2d, false, &[3, 4]));
    for end in whole..stream.len() {
        let out = parse(stream[..end].to_vec());
        assert_eq!(out.len(), 1);
        assert_eq!(out[0].data, vec![1, 2]);
    }
    assert_eq!(parse(stream).len(), 2);
}

#[test]
fn a_read_past_the_end_is_told() {
    let mut r = BinaryReader::from_bytes(vec![1]);
    let text = |e: AppError| e.message();
    assert_eq!(r.read_u16().map_err(text), Err("Parse error: unexpected end of data".into()));
    assert_eq!(r.peek_u32().map_err(text), Err("Parse error: unexpected end of data".into()));
    assert_eq!(r.read_u64().map_err(text), Err("Parse error: unexpected end of data".into()));
    assert_eq!(r.read_bytes(2).map_err(text), Err("Parse error: unexpected end of data".into()));
    assert_eq!(r.remaining(), 1);
    assert_eq!(r.read_bytes(1).map_err(text), Ok(vec![1]));
}
