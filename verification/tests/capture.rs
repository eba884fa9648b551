use bpsr_module_optimizer::capture::detection::{detect_login_return, detect_scene_server};
use bpsr_module_optimizer::capture::opening::{open_step, OpenAction, OpenEvent, OpenPhase};
use bpsr_module_optimizer::capture::server::Server;
use bpsr_module_optimizer::capture::tcp_reassembler::TcpReassembler;
use bpsr_module_optimizer::capture::tracker::{CaptureOutput, CaptureState};
use bpsr_module_optimizer::protocol::opcodes::Pkt;
use etherparse::PacketBuilder;

fn packet(src: [u8; 4], sport: u16, seq: u32, payload: &[u8]) -> Vec<u8> {
    let builder = PacketBuilder::ipv4(src, [192, 168, 0, 9], 64).tcp(sport, 5000, seq, 1000);
    let mut bytes = Vec::new();
    builder.write(&mut bytes, payload).unwrap();
    bytes
}

fn frame(body: &[u8]) -> Vec<u8> {
    let mut f = ((4 + body.len()) as u32).to_be_bytes().to_vec();
    f.extend_from_slice(body);
    f
}

fn message(content: &[u8]) -> Vec<u8> {
    let mut body = vec![0, 2];
    body.extend_from_slice(&0x63335342u64.to_be_bytes());
    body.extend_from_slice(&[0; 4]);
    body.extend_from_slice(&0x2du32.to_be_bytes());
    body.extend_from_slice(content);
    frame(&body)
}

fn greeting() -> Vec<u8> {
    let mut payload = vec![0, 0, 0, 40, 0, 6, 0, 0, 0, 1];
    let mut fragment = vec![9; 5];
    fragment.extend_from_slice(&[0x00, 0x63, 0x33, 0x53, 0x42, 0x00]);
    payload.extend(frame(&[1, 2]));
    payload.extend(frame(&fragment));
    payload
}

fn login() -> Vec<u8> {
    let mut payload = vec![0; 0x62];
    payload[..10].copy_from_slice(&[0, 0, 0, 0x62, 0, 3, 0, 0, 0, 1]);
    payload[14..20].copy_from_slice(&[0, 0, 0, 0, 0x0a, 0x4e]);
    payload
}

#[test]
fn servers_are_recognised() {
    assert!(detect_scene_server(&greeting()));
    let mut other = greeting();
    other[4] = 1;
    assert!(!detect_scene_server(&other));
    assert!(!detect_scene_server(&[]));
    assert!(detect_login_return(&login()));
    assert!(!detect_login_return(&login()[1..]));
}

#[test]
fn packets_lead_to_messages() {
    let server = [52, 7, 1, 1];
    let mut state = CaptureState::new();
    let quiet = |out: &CaptureOutput| !out.game_packet && out.envelopes.is_empty();
    assert!(quiet(&state.on_packet(&[1, 2, 3])));
    assert!(quiet(&state.on_packet(&packet(server, 443, 1, b"hello"))));

    let hello = greeting();
    let out = state.on_packet(&packet(server, 443, 100, &hello));
    assert_eq!(out.envelopes.len(), 1);
    assert!(out.envelopes[0].op == Pkt::ServerHandover && out.envelopes[0].conn.is_none());

    let next = 100 + hello.len() as u32;
    let m = message(&[1, 2, 3]);
    let (head, tail) = m.split_at(9);
    let late = state.on_packet(&packet(server, 443, next + 9, tail));
    assert!(late.game_packet && late.envelopes.is_empty());
    let out = state.on_packet(&packet(server, 443, next, head));
    assert_eq!(out.envelopes.len(), 1);
    assert!(out.envelopes[0].op == Pkt::WorldDeltaBatch);
    assert_eq!(out.envelopes[0].data, vec![1, 2, 3]);
    let conn = out.envelopes[0].conn.unwrap();
    assert_eq!((conn.src_addr(), conn.dst_addr()), (server, [192, 168, 0, 9]));
    assert_eq!(conn.text(), "52.7.1.1:443 -> 192.168.0.9:5000");

    let out = state.on_packet(&packet([52, 7, 9, 9], 444, 7, &message(&[4])));
    assert!(out.game_packet);
    assert_eq!(out.envelopes[0].data, vec![4], "of the same subnet");
    assert!(quiet(&state.on_packet(&packet([53, 7, 9, 9], 444, 7, &message(&[4])))));
}

#[test]
fn an_answer_to_a_login_names_the_server() {
    let mut state = CaptureState::new();
    let out = state.on_packet(&packet([52, 7, 1, 1], 443, 0, &login()));
    assert!(out.envelopes[0].op == Pkt::ServerHandover);
    let out = state.on_packet(&packet([52, 7, 1, 2], 443, 0, &login()));
    assert!(
        out.envelopes.is_empty(),
        "only while none is known; here it goes to a stream of the subnet"
    );
}

#[test]
fn segments_are_put_in_order() {
    let mut stream = TcpReassembler::new();
    let a = frame(&[1; 10]);
    let b = frame(&[2; 20]);
    let all: Vec<u8> = a.iter().chain(b.iter()).copied().collect();
    stream.clear(u32::MAX - 3);
    let start = u32::MAX - 3;
    assert!(stream.reassemble(start.wrapping_add(20), &all[20..], false).is_empty());
    assert!(stream.reassemble(start.wrapping_sub(50), &all, false).is_empty(), "too old");
    let out = stream.reassemble(start, &all[..20], false);
    assert_eq!(out, vec![a.clone(), b.clone()]);
    let mut stream = TcpReassembler::new();
    assert_eq!(stream.reassemble(77, &a, false), vec![a.clone()], "begins anywhere");
    let mut junk = vec![0, 0, 0, 1];
    junk.extend(&a);
    let mut lenient = TcpReassembler::new();
    assert!(lenient.reassemble(0, &junk, true).is_empty(), "everything is dropped");
}

#[test]
fn a_lost_segment_does_not_stop_the_stream() {
    let mut stream = TcpReassembler::new();
    stream.clear(0);
    let big = frame(&vec![7; 40_000]);
    let out = stream.reassemble(5000, &big, false);
    assert_eq!(out, vec![big.clone()], "it goes on behind the gap");
}

#[test]
fn opening_is_tried_again() {
    let (phase, action) = open_step(OpenPhase::First, OpenEvent::OpenFailed(Some(1072)));
    assert_eq!((phase, action), (OpenPhase::Retrying(4), OpenAction::WaitAndOpen(200)));
    let (_, action) = open_step(OpenPhase::Retrying(0), OpenEvent::OpenFailed(None));
    assert_eq!(action, OpenAction::GiveUp);
    let (phase, action) = open_step(OpenPhase::First, OpenEvent::OpenFailed(Some(5)));
    assert_eq!((phase, action), (OpenPhase::Recovering, OpenAction::Recover));
    let (phase, action) = open_step(OpenPhase::Recovering, OpenEvent::Recovered(true));
    assert_eq!((phase, action), (OpenPhase::AfterRecovery, OpenAction::Open));
    assert_eq!(open_step(OpenPhase::Recovering, OpenEvent::Recovered(false)).1, OpenAction::GiveUp);
    assert_eq!(open_step(OpenPhase::Recovering, OpenEvent::RecoverFailed).1, OpenAction::GiveUp);
    assert_eq!(open_step(OpenPhase::AfterRecovery, OpenEvent::Opened).1, OpenAction::Done);
}

#[test]
fn connections_are_told_apart() {
    let a = Server::new([1, 2, 3, 4], 5, [6, 7, 8, 9], 10);
    assert!(a.same(&a));
    assert!(!a.same(&Server::new([1, 2, 3, 4], 6, [6, 7, 8, 9], 10)));
    assert!(a.src_matches_subnet(&[1, 2]) && !a.src_matches_subnet(&[6, 7]));
}
