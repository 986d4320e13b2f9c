use tftp_core::server::{open_error_frame, Dispatch, Endpoint, OpenError, SessionTable};
use tftp_core::stream::{ChunkStep, FileStream, UNKNOWN_POS};
use tftp_core::wire::{decode, encode_ack, encode_data, encode_error, DecodeError, Message};

fn peer() -> Endpoint {
    Endpoint { ip: 0xffff_7f00_0001, port: 4000 }
}

fn read_request(name: &str, mode: &str) -> Vec<u8> {
    let mut d = vec![0u8, 1];
    d.extend_from_slice(name.as_bytes());
    d.push(0);
    d.extend_from_slice(mode.as_bytes());
    d.push(0);
    d
}

fn file(len: usize) -> Vec<u8> {
    (0..len).map(|i| (i % 251) as u8).collect()
}

fn block_of(content: &[u8], offset: u64) -> Vec<u8> {
    let start = (offset as usize).min(content.len());
    let end = (start + 512).min(content.len());
    content[start..end].to_vec()
}

fn expect_read(step: ChunkStep) -> (u64, bool) {
    match step {
        ChunkStep::Read { offset, seek } => (offset, seek),
        other => panic!("expected a read, got {:?}", other),
    }
}

fn expect_reply(d: Dispatch) -> Vec<u8> {
    match d {
        Dispatch::Reply(f) => f,
        other => panic!("expected a reply, got {:?}", other),
    }
}

#[test]
fn block_count_is_ceiling() {
    assert_eq!(FileStream::new(0).chunks, 0);
    assert_eq!(FileStream::new(1).chunks, 1);
    assert_eq!(FileStream::new(512).chunks, 1);
    assert_eq!(FileStream::new(513).chunks, 2);
    assert_eq!(FileStream::new(1000).chunks, 2);
    assert_eq!(FileStream::new(1024).chunks, 2);
}

#[test]
fn block_past_end_is_empty_and_done() {
    let mut s = FileStream::new(1024);
    match s.send_chunk(3) {
        ChunkStep::Send(f) => assert_eq!(f, vec![0, 3, 0, 3]),
        other => panic!("expected the empty block, got {:?}", other),
    }
    assert!(s.done);
}

#[test]
fn exact_multiple_ends_with_empty_block() {
    let content = file(1024);
    let mut s = FileStream::new(1024);
    for n in 1..=2u64 {
        let (offset, seek) = expect_read(s.send_chunk(n));
        assert_eq!(offset, (n - 1) * 512);
        assert!(!seek);
        let f = s.finish_chunk(n, Ok(block_of(&content, offset)));
        assert_eq!(f.len(), 516);
        assert_eq!(&f[..4], &[0, 3, 0, n as u8]);
        assert!(!s.done);
    }
    match s.send_chunk(3) {
        ChunkStep::Send(f) => assert_eq!(f, vec![0, 3, 0, 3]),
        other => panic!("expected the empty block, got {:?}", other),
    }
    assert!(s.done);
}

#[test]
fn short_last_block_ends_transfer() {
    let content = file(513);
    let mut s = FileStream::new(513);
    let (o1, _) = expect_read(s.send_chunk(1));
    let f1 = s.finish_chunk(1, Ok(block_of(&content, o1)));
    assert_eq!(f1.len(), 516);
    assert!(!s.done);
    let (o2, _) = expect_read(s.send_chunk(2));
    let f2 = s.finish_chunk(2, Ok(block_of(&content, o2)));
    assert_eq!(f2, vec![0, 3, 0, 2, content[512]]);
    assert!(s.done);
    assert_eq!(s.pos, 513);
}

#[test]
fn repeated_block_is_identical() {
    let content = file(2000);
    let mut s = FileStream::new(2000);
    let (o1, _) = expect_read(s.send_chunk(2));
    let first = s.finish_chunk(2, Ok(block_of(&content, o1)));
    let (o3, _) = expect_read(s.send_chunk(3));
    s.finish_chunk(3, Ok(block_of(&content, o3)));
    let (again, seek) = expect_read(s.send_chunk(2));
    assert_eq!(again, o1);
    assert!(seek);
    let second = s.finish_chunk(2, Ok(block_of(&content, again)));
    assert_eq!(first, second);
}

#[test]
fn sequential_read_needs_no_seek() {
    let content = file(1500);
    let mut s = FileStream::new(1500);
    let (o, seek) = expect_read(s.send_chunk(1));
    assert!(!seek);
    s.finish_chunk(1, Ok(block_of(&content, o)));
    let (o, seek) = expect_read(s.send_chunk(2));
    assert_eq!(o, 512);
    assert!(!seek);
    let (o, seek) = expect_read(s.send_chunk(3));
    assert_eq!(o, 1024);
    assert!(seek);
}

#[test]
fn read_failure_keeps_session_retryable() {
    let mut s = FileStream::new(1000);
    let before = s;
    let f = s.finish_chunk(1, Err("disk gone".to_string()));
    let mut expected = vec![0u8, 5, 0, 0];
    expected.extend_from_slice(b"disk gone");
    assert_eq!(f, expected);
    assert_eq!((s.len, s.chunks, s.last, s.done), (before.len, before.chunks, before.last, before.done));
    assert_eq!(s.pos, UNKNOWN_POS);
    assert!(!s.done);
}

#[test]
fn failed_read_forces_seek_on_next_request() {
    let content = file(2560);
    let mut s = FileStream::new(2560);
    let mut first = Vec::new();
    for n in 1..=3u64 {
        let (o, _) = expect_read(s.send_chunk(n));
        first.push(s.finish_chunk(n, Ok(block_of(&content, o))));
    }
    let (o, seek) = expect_read(s.send_chunk(2));
    assert!(seek);
    s.finish_chunk(2, Ok(block_of(&content, o)));
    let (o, seek) = expect_read(s.send_chunk(1));
    assert_eq!(o, 0);
    assert!(seek);
    s.finish_chunk(1, Err("eio".to_string()));
    let (o, seek) = expect_read(s.send_chunk(3));
    assert_eq!(o, 1024);
    assert!(seek);
    let again = s.finish_chunk(3, Ok(block_of(&content, o)));
    assert_eq!(again, first[2]);
}

#[test]
fn acknowledgment_past_block_65536_continues() {
    let mut table = SessionTable::new();
    let len = 70000u64 * 512;
    let mut s = FileStream::new(len);
    s.last = 65536;
    s.pos = 65536 * 512;
    table.insert(peer(), s, 0);
    match table.dispatch(peer(), &encode_ack(0), 1) {
        Dispatch::Read { block, offset, seek } => {
            assert_eq!(block, 65537);
            assert_eq!(offset, 65536 * 512);
            assert!(!seek);
        }
        other => panic!("unexpected {:?}", other),
    }
    let f = table.finish_read(peer(), 65537, Ok(vec![3u8; 512]), 1).unwrap();
    assert_eq!(&f[..4], &[0, 3, 0, 1]);
    assert_eq!(table.get(peer()).unwrap().last, 65537);
    match table.dispatch(peer(), &encode_ack(65535), 2) {
        Dispatch::Read { block, .. } => assert_eq!(block, 65536),
        other => panic!("unexpected {:?}", other),
    }
}

#[test]
fn repeated_acknowledgment_asks_for_same_block() {
    let mut table = SessionTable::new();
    table.open_session(peer(), 5000, 0);
    table.finish_read(peer(), 1, Ok(vec![1u8; 512]), 0);
    assert!(matches!(table.dispatch(peer(), &encode_ack(1), 0), Dispatch::Read { block: 2, .. }));
    table.finish_read(peer(), 2, Ok(vec![2u8; 512]), 0);
    assert!(matches!(table.dispatch(peer(), &encode_ack(1), 0), Dispatch::Read { block: 2, offset: 512, seek: true }));
    assert!(matches!(table.dispatch(peer(), &encode_ack(2), 0), Dispatch::Read { block: 3, offset: 1024, seek: false }));
}

#[test]
fn block_number_wraps_on_the_wire() {
    assert_eq!(encode_data(65537, &[]), vec![0, 3, 0, 1]);
    assert_eq!(encode_data(65537, &[9, 8]), encode_data(1, &[9, 8]));
    assert_eq!(encode_data(65536, &[]), vec![0, 3, 0, 0]);
    let mut s = FileStream::new(65537 * 512);
    let (offset, _) = expect_read(s.send_chunk(65537));
    assert_eq!(offset, 65536 * 512);
    let f = s.finish_chunk(65537, Ok(vec![7u8; 512]));
    assert_eq!(&f[..4], &[0, 3, 0, 1]);
}

#[test]
fn encodes_frames() {
    assert_eq!(encode_ack(0x1234), vec![0, 4, 0x12, 0x34]);
    assert_eq!(encode_error(2, b"no"), vec![0, 5, 0, 2, b'n', b'o']);
    assert_eq!(encode_data(0x0102, &[5, 6, 7]), vec![0, 3, 1, 2, 5, 6, 7]);
}

#[test]
fn decodes_frames() {
    assert!(matches!(decode(&[]), Err(DecodeError::MalformedFrame)));
    assert!(matches!(decode(&[0]), Err(DecodeError::MalformedFrame)));
    assert!(matches!(decode(&[0, 9]), Err(DecodeError::UnknownOpcode(9))));
    assert!(matches!(decode(&[1, 0]), Err(DecodeError::UnknownOpcode(256))));
    assert!(matches!(decode(&[0, 4, 0x12, 0x34]), Ok(Message::Acknowledge { block: 0x1234 })));
    assert!(matches!(decode(&[0, 4, 1]), Err(DecodeError::MalformedFrame)));
    match decode(&[0, 3, 0, 7, 1, 2]) {
        Ok(Message::Data { block, payload }) => {
            assert_eq!(block, 7);
            assert_eq!(payload, vec![1, 2]);
        }
        other => panic!("unexpected {:?}", other),
    }
    match decode(&[0, 5, 0, 1, b'x']) {
        Ok(Message::Error { code, message }) => {
            assert_eq!(code, 1);
            assert_eq!(message, b"x".to_vec());
        }
        other => panic!("unexpected {:?}", other),
    }
}

#[test]
fn decodes_requests() {
    match decode(&read_request("a.txt", "octet")) {
        Ok(Message::ReadRequest { filename, mode }) => {
            assert_eq!(filename, "a.txt");
            assert_eq!(mode, "octet");
        }
        other => panic!("unexpected {:?}", other),
    }
    let mut unterminated_mode = vec![0u8, 2];
    unterminated_mode.extend_from_slice(b"f\0netascii");
    match decode(&unterminated_mode) {
        Ok(Message::WriteRequest { filename, mode }) => {
            assert_eq!(filename, "f");
            assert_eq!(mode, "netascii");
        }
        other => panic!("unexpected {:?}", other),
    }
    assert!(matches!(decode(&[0, 1, b'f']), Err(DecodeError::MalformedFrame)));
    assert!(matches!(decode(&[0, 1, 0xff, 0, b'o']), Err(DecodeError::MalformedFrame)));
    assert!(matches!(decode(&[0, 1, b'f', 0, 0xc3]), Err(DecodeError::MalformedFrame)));
}

#[test]
fn empty_file_sends_one_empty_block() {
    let mut table = SessionTable::new();
    match table.dispatch(peer(), &read_request("empty", "octet"), 10) {
        Dispatch::Open(name) => assert_eq!(name, "empty"),
        other => panic!("unexpected {:?}", other),
    }
    let f = expect_reply(table.open_session(peer(), 0, 10));
    assert_eq!(f, vec![0, 3, 0, 1]);
    assert!(table.get(peer()).unwrap().done);
    assert!(matches!(table.dispatch(peer(), &encode_ack(1), 10), Dispatch::Ignore));
}

#[test]
fn thousand_byte_file_takes_two_blocks() {
    let content = file(1000);
    let mut table = SessionTable::new();
    assert!(matches!(table.dispatch(peer(), &read_request("f", "octet"), 10), Dispatch::Open(_)));
    let (block, offset) = match table.open_session(peer(), 1000, 10) {
        Dispatch::Read { block, offset, seek: false } => (block, offset),
        other => panic!("unexpected {:?}", other),
    };
    assert_eq!((block, offset), (1, 0));
    let f1 = table.finish_read(peer(), 1, Ok(block_of(&content, 0)), 10).unwrap();
    assert_eq!(f1.len(), 516);
    assert_eq!(&f1[..4], &[0, 3, 0, 1]);
    assert!(!table.get(peer()).unwrap().done);
    let (block, offset) = match table.dispatch(peer(), &encode_ack(1), 10) {
        Dispatch::Read { block, offset, seek: false } => (block, offset),
        other => panic!("unexpected {:?}", other),
    };
    assert_eq!((block, offset), (2, 512));
    let f2 = table.finish_read(peer(), 2, Ok(block_of(&content, 512)), 10).unwrap();
    assert_eq!(f2.len(), 4 + 488);
    assert_eq!(&f2[..4], &[0, 3, 0, 2]);
    assert!(table.get(peer()).unwrap().done);
    assert!(matches!(table.dispatch(peer(), &encode_ack(2), 10), Dispatch::Ignore));
}

#[test]
fn missing_file_adds_no_session() {
    let mut table = SessionTable::new();
    assert!(matches!(table.dispatch(peer(), &read_request("nope", "octet"), 10), Dispatch::Open(_)));
    let f = open_error_frame(&OpenError::NotFound);
    let mut expected = vec![0u8, 5, 0, 1];
    expected.extend_from_slice(b"File not found");
    assert_eq!(f, expected);
    assert_eq!(table.len(), 0);
    assert!(table.get(peer()).is_none());
    let denied = open_error_frame(&OpenError::PermissionDenied);
    assert_eq!(&denied[..4], &[0, 5, 0, 2]);
    let other = open_error_frame(&OpenError::Other("busy".to_string()));
    assert_eq!(other, vec![0, 5, 0, 0, b'b', b'u', b's', b'y']);
}

#[test]
fn names_outside_root_are_refused() {
    let mut table = SessionTable::new();
    for name in ["../etc/passwd", "/etc/passwd", "a/../../b", "..", "a/..", "a\\b", ""] {
        let f = expect_reply(table.dispatch(peer(), &read_request(name, "octet"), 10));
        let mut expected = vec![0u8, 5, 0, 2];
        expected.extend_from_slice(b"Access violation");
        assert_eq!(f, expected, "{}", name);
    }
    for name in ["a..b", "dir/file.txt", "..hidden", "x/.../y"] {
        assert!(matches!(table.dispatch(peer(), &read_request(name, "octet"), 10), Dispatch::Open(_)), "{}", name);
    }
    assert_eq!(table.len(), 0);
}

#[test]
fn stray_acknowledgment_is_ignored() {
    let mut table = SessionTable::new();
    assert!(matches!(table.dispatch(peer(), &encode_ack(3), 10), Dispatch::Ignore));
    assert_eq!(table.len(), 0);
}

#[test]
fn unsupported_operations_are_refused() {
    let mut table = SessionTable::new();
    let mut expected = vec![0u8, 5, 0, 4];
    expected.extend_from_slice(b"Operation not supported");
    let mut write = read_request("f", "octet");
    write[1] = 2;
    assert_eq!(expect_reply(table.dispatch(peer(), &write, 10)), expected);
    assert_eq!(expect_reply(table.dispatch(peer(), &[0, 3, 0, 1, 9], 10)), expected);
    assert_eq!(expect_reply(table.dispatch(peer(), &[0, 5, 0, 1], 10)), expected);
    assert!(matches!(table.dispatch(peer(), &[0], 10), Dispatch::Drop(DecodeError::MalformedFrame)));
    assert!(matches!(table.dispatch(peer(), &[0, 7], 10), Dispatch::Drop(DecodeError::UnknownOpcode(7))));
}

#[test]
fn new_request_replaces_session() {
    let mut table = SessionTable::new();
    let other = Endpoint { ip: 1, port: 69 };
    table.open_session(peer(), 0, 10);
    table.open_session(other, 2048, 10);
    assert_eq!(table.len(), 2);
    table.open_session(peer(), 600, 10);
    assert_eq!(table.len(), 2);
    let s = table.get(peer()).unwrap();
    assert_eq!((s.len, s.chunks, s.done), (600, 2, false));
}

#[test]
fn finish_read_checks_its_inputs() {
    let mut table = SessionTable::new();
    assert!(table.finish_read(peer(), 1, Ok(vec![1]), 10).is_none());
    table.open_session(peer(), 1000, 10);
    assert!(table.finish_read(peer(), 0, Ok(vec![1]), 10).is_none());
    assert!(table.finish_read(peer(), 3, Ok(vec![1]), 10).is_none());
    assert!(table.finish_read(peer(), 1, Ok(vec![0; 513]), 10).is_none());
    let f = table.finish_read(peer(), 1, Err("eio".to_string()), 10).unwrap();
    assert_eq!(f, vec![0, 5, 0, 0, b'e', b'i', b'o']);
    assert!(!table.get(peer()).unwrap().done);
    assert_eq!(table.get(peer()).unwrap().pos, UNKNOWN_POS);
}

#[test]
fn eviction_removes_finished_and_idle_sessions() {
    let mut table = SessionTable::new();
    let a = Endpoint { ip: 1, port: 1 };
    let b = Endpoint { ip: 2, port: 2 };
    let c = Endpoint { ip: 3, port: 3 };
    table.open_session(a, 0, 100);
    table.open_session(b, 5000, 100);
    table.open_session(c, 5000, 150);
    assert!(table.get(a).unwrap().done);
    let gone = table.evict(150, 60);
    assert_eq!(gone, vec![a]);
    assert_eq!(table.len(), 2);
    let gone = table.evict(200, 60);
    assert_eq!(gone, vec![b]);
    assert!(table.get(b).is_none());
    assert!(table.get(c).is_some());
    assert!(matches!(table.dispatch(b, &encode_ack(1), 300), Dispatch::Ignore));
}

#[test]
fn acknowledgment_refreshes_activity() {
    let mut table = SessionTable::new();
    table.open_session(peer(), 5000, 0);
    table.finish_read(peer(), 1, Ok(vec![1u8; 512]), 0);
    assert!(matches!(table.dispatch(peer(), &encode_ack(1), 50), Dispatch::Read { block: 2, .. }));
    assert!(table.evict(100, 60).is_empty());
    assert_eq!(table.evict(110, 60), vec![peer()]);
    assert_eq!(table.len(), 0);
}
