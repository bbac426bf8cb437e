use tftp::packet::{Mode, Packet, DISK_FULL, FILE_NOT_FOUND, READ_OPCODE, SEE_MSG};
use tftp::transfer::{
    ReadAction, ReadEvent, ReadPhase, ReadTransfer, WriteAction, WriteEvent, WritePhase,
    WriteTransfer, MAX_RETRIES,
};

fn chunk_at(file: &[u8], offset: usize) -> ([u8; 512], usize) {
    let mut data = [0u8; 512];
    let rest = &file[offset.min(file.len())..];
    let len = rest.len().min(512);
    data[..len].copy_from_slice(&rest[..len]);
    (data, len)
}

fn expect_data(action: ReadAction) -> (u16, Vec<u8>) {
    match action {
        ReadAction::Send(Packet::Data { block, data, len }) => (block, data[..len].to_vec()),
        other => panic!("expected a data frame, got {:?}", other),
    }
}

/// Serves `file` to a peer that acknowledges every block and returns the
/// blocks that were sent.
fn serve(file: &[u8]) -> Vec<(u16, Vec<u8>)> {
    let mut t = ReadTransfer::new();
    let mut sent = Vec::new();
    let mut offset = 0;
    let mut action = t.step(ReadEvent::Opened { ok: true });
    while !t.is_over() {
        assert!(matches!(action, ReadAction::Read));
        let (data, len) = chunk_at(file, offset);
        offset += len;
        let (block, payload) = expect_data(t.step(ReadEvent::Chunk { data, len }));
        assert_eq!(t.phase(), ReadPhase::AwaitingAck);
        sent.push((block, payload));
        action = t.step(ReadEvent::Frame(Packet::new_ack(block)));
    }
    assert!(matches!(action, ReadAction::Nothing));
    assert_eq!(t.phase(), ReadPhase::Done);
    sent
}

#[test]
fn read_of_600_bytes_sends_two_blocks() {
    let file: Vec<u8> = (0..600).map(|i| (i % 256) as u8).collect();
    let mut t = ReadTransfer::new();
    assert_eq!(t.phase(), ReadPhase::Idle);

    assert!(matches!(t.step(ReadEvent::Opened { ok: true }), ReadAction::Read));
    assert_eq!(t.phase(), ReadPhase::SendingBlock);
    assert_eq!(t.block(), 1);

    let (data, len) = chunk_at(&file, 0);
    let (block, payload) = expect_data(t.step(ReadEvent::Chunk { data, len }));
    assert_eq!(block, 1);
    assert_eq!(payload.len(), 512);
    assert_eq!(payload, &file[..512]);

    assert!(matches!(
        t.step(ReadEvent::Frame(Packet::new_ack(1))),
        ReadAction::Read
    ));
    assert_eq!(t.block(), 2);

    let (data, len) = chunk_at(&file, 512);
    let (block, payload) = expect_data(t.step(ReadEvent::Chunk { data, len }));
    assert_eq!(block, 2);
    assert_eq!(payload.len(), 88);
    assert_eq!(payload, &file[512..]);

    assert!(matches!(
        t.step(ReadEvent::Frame(Packet::new_ack(2))),
        ReadAction::Nothing
    ));
    assert_eq!(t.phase(), ReadPhase::Done);
    assert!(t.is_over());

    // nothing more is sent, whatever arrives
    assert!(matches!(
        t.step(ReadEvent::Frame(Packet::new_ack(2))),
        ReadAction::Nothing
    ));
    assert!(matches!(t.step(ReadEvent::Timeout), ReadAction::Nothing));
    assert_eq!(t.phase(), ReadPhase::Done);
}

#[test]
fn read_of_whole_blocks_ends_with_empty_block() {
    let file = vec![7u8; 1024];
    let sent = serve(&file);
    assert_eq!(sent.len(), 3);
    assert_eq!(sent[0], (1, vec![7u8; 512]));
    assert_eq!(sent[1], (2, vec![7u8; 512]));
    assert_eq!(sent[2], (3, Vec::new()));
}

#[test]
fn read_of_empty_file_sends_one_empty_block() {
    let sent = serve(&[]);
    assert_eq!(sent, vec![(1, Vec::new())]);
}

#[test]
fn read_of_short_file_sends_one_block() {
    let sent = serve(b"hello");
    assert_eq!(sent, vec![(1, b"hello".to_vec())]);
}

#[test]
fn read_sent_frame_has_exact_wire_bytes() {
    let mut t = ReadTransfer::new();
    t.step(ReadEvent::Opened { ok: true });
    let (data, len) = chunk_at(b"abc", 0);
    match t.step(ReadEvent::Chunk { data, len }) {
        ReadAction::Send(p) => assert_eq!(p.serialize(), vec![0, 3, 0, 1, b'a', b'b', b'c']),
        other => panic!("expected a data frame, got {:?}", other),
    }
}

#[test]
fn read_open_failure_reports_file_not_found() {
    let mut t = ReadTransfer::new();
    match t.step(ReadEvent::Opened { ok: false }) {
        ReadAction::Send(Packet::Error { code, msg }) => {
            assert_eq!(code, FILE_NOT_FOUND);
            assert_eq!(msg, "");
        }
        other => panic!("expected an error frame, got {:?}", other),
    }
    assert_eq!(t.phase(), ReadPhase::Aborted);
    assert!(t.is_over());
}

#[test]
fn read_does_not_advance_without_matching_ack() {
    let mut t = ReadTransfer::new();
    t.step(ReadEvent::Opened { ok: true });
    t.step(ReadEvent::Chunk {
        data: [1u8; 512],
        len: 512,
    });
    for wrong in [0u16, 2, 3, 65535] {
        assert!(matches!(
            t.step(ReadEvent::Frame(Packet::new_ack(wrong))),
            ReadAction::Nothing
        ));
        assert_eq!(t.phase(), ReadPhase::AwaitingAck);
        assert_eq!(t.block(), 1);
    }
    // a data frame and a request are not expected here
    assert!(matches!(
        t.step(ReadEvent::Frame(Packet::new_data(1, [0u8; 512], 4))),
        ReadAction::Nothing
    ));
    let rq = Packet::Request {
        op_code: READ_OPCODE,
        file: "x".to_string(),
        mode: Mode::Octet,
    };
    assert!(matches!(t.step(ReadEvent::Frame(rq)), ReadAction::Nothing));
    assert_eq!(t.phase(), ReadPhase::AwaitingAck);
    assert_eq!(t.block(), 1);
    assert!(matches!(
        t.step(ReadEvent::Frame(Packet::new_ack(1))),
        ReadAction::Read
    ));
    assert_eq!(t.block(), 2);
}

#[test]
fn read_ignores_duplicate_ack_after_advancing() {
    let mut t = ReadTransfer::new();
    t.step(ReadEvent::Opened { ok: true });
    t.step(ReadEvent::Chunk {
        data: [1u8; 512],
        len: 512,
    });
    t.step(ReadEvent::Frame(Packet::new_ack(1)));
    // at block 2, chunk wanted: the old acknowledgment changes nothing
    assert!(matches!(
        t.step(ReadEvent::Frame(Packet::new_ack(1))),
        ReadAction::Nothing
    ));
    assert_eq!((t.phase(), t.block()), (ReadPhase::SendingBlock, 2));
    t.step(ReadEvent::Chunk {
        data: [2u8; 512],
        len: 512,
    });
    // at block 2, in flight: the same
    assert!(matches!(
        t.step(ReadEvent::Frame(Packet::new_ack(1))),
        ReadAction::Nothing
    ));
    assert_eq!((t.phase(), t.block()), (ReadPhase::AwaitingAck, 2));
}

#[test]
fn read_aborts_on_peer_error() {
    let mut t = ReadTransfer::new();
    t.step(ReadEvent::Opened { ok: true });
    t.step(ReadEvent::Chunk {
        data: [1u8; 512],
        len: 512,
    });
    assert!(matches!(
        t.step(ReadEvent::Frame(Packet::new_error(DISK_FULL, "full"))),
        ReadAction::Nothing
    ));
    assert_eq!(t.phase(), ReadPhase::Aborted);
}

#[test]
fn read_resends_on_timeout_then_gives_up() {
    let mut t = ReadTransfer::new();
    t.step(ReadEvent::Opened { ok: true });
    let (data, len) = chunk_at(b"data", 0);
    t.step(ReadEvent::Chunk { data, len });
    for _ in 0..MAX_RETRIES {
        let (block, payload) = expect_data(t.step(ReadEvent::Timeout));
        assert_eq!(block, 1);
        assert_eq!(payload, b"data");
        assert_eq!(t.phase(), ReadPhase::AwaitingAck);
    }
    assert!(matches!(t.step(ReadEvent::Timeout), ReadAction::Nothing));
    assert_eq!(t.phase(), ReadPhase::Aborted);
}

#[test]
fn read_retries_start_anew_with_each_block() {
    let mut t = ReadTransfer::new();
    t.step(ReadEvent::Opened { ok: true });
    t.step(ReadEvent::Chunk {
        data: [1u8; 512],
        len: 512,
    });
    for _ in 0..MAX_RETRIES {
        t.step(ReadEvent::Timeout);
    }
    t.step(ReadEvent::Frame(Packet::new_ack(1)));
    t.step(ReadEvent::Chunk {
        data: [2u8; 512],
        len: 3,
    });
    let (block, payload) = expect_data(t.step(ReadEvent::Timeout));
    assert_eq!((block, payload), (2, vec![2u8; 3]));
}

#[test]
fn read_failure_reports_undefined_error() {
    let mut t = ReadTransfer::new();
    t.step(ReadEvent::Opened { ok: true });
    match t.step(ReadEvent::Failure) {
        ReadAction::Send(Packet::Error { code, .. }) => assert_eq!(code, SEE_MSG),
        other => panic!("expected an error frame, got {:?}", other),
    }
    assert_eq!(t.phase(), ReadPhase::Aborted);
}

#[test]
fn read_ignores_events_out_of_phase() {
    let mut t = ReadTransfer::new();
    assert!(matches!(t.step(ReadEvent::Timeout), ReadAction::Nothing));
    assert!(matches!(t.step(ReadEvent::Failure), ReadAction::Nothing));
    assert!(matches!(
        t.step(ReadEvent::Chunk {
            data: [0u8; 512],
            len: 1
        }),
        ReadAction::Nothing
    ));
    assert!(matches!(
        t.step(ReadEvent::Frame(Packet::new_ack(0))),
        ReadAction::Nothing
    ));
    assert_eq!((t.phase(), t.block()), (ReadPhase::Idle, 0));
    t.step(ReadEvent::Opened { ok: true });
    assert!(matches!(
        t.step(ReadEvent::Opened { ok: false }),
        ReadAction::Nothing
    ));
    assert_eq!((t.phase(), t.block()), (ReadPhase::SendingBlock, 1));
}

#[test]
fn read_stops_at_last_block_number() {
    let mut t = ReadTransfer::new();
    t.step(ReadEvent::Opened { ok: true });
    for block in 1..=65534u16 {
        t.step(ReadEvent::Chunk {
            data: [0u8; 512],
            len: 512,
        });
        assert!(matches!(
            t.step(ReadEvent::Frame(Packet::new_ack(block))),
            ReadAction::Read
        ));
    }
    assert_eq!(t.block(), 65535);
    t.step(ReadEvent::Chunk {
        data: [0u8; 512],
        len: 512,
    });
    match t.step(ReadEvent::Frame(Packet::new_ack(65535))) {
        ReadAction::Send(Packet::Error { code, .. }) => assert_eq!(code, SEE_MSG),
        other => panic!("expected an error frame, got {:?}", other),
    }
    assert_eq!(t.phase(), ReadPhase::Aborted);
}

fn expect_ack(action: WriteAction) -> u16 {
    match action {
        WriteAction::Send(Packet::Ack { block }) => block,
        other => panic!("expected an acknowledgment, got {:?}", other),
    }
}

fn expect_store(action: WriteAction) -> (u16, Vec<u8>) {
    match action {
        WriteAction::Store { block, data, len } => (block, data[..len].to_vec()),
        other => panic!("expected a block to store, got {:?}", other),
    }
}

#[test]
fn write_of_300_bytes_ends_after_one_block() {
    let content: Vec<u8> = (0..300).map(|i| (i % 199) as u8).collect();
    let mut written: Vec<u8> = Vec::new();
    let mut t = WriteTransfer::new();
    assert_eq!(t.phase(), WritePhase::Idle);

    assert_eq!(expect_ack(t.step(WriteEvent::Created { ok: true })), 0);
    assert_eq!(t.phase(), WritePhase::AwaitingFirstData);
    assert_eq!(t.expected(), 1);

    let (data, len) = chunk_at(&content, 0);
    let (block, payload) = expect_store(t.step(WriteEvent::Frame(Packet::new_data(1, data, len))));
    written.extend_from_slice(&payload);
    assert_eq!(block, 1);
    assert_eq!(Packet::new_ack(block).serialize(), vec![0, 4, 0, 1]);
    assert_eq!(t.phase(), WritePhase::Done);
    assert!(t.is_over());
    assert_eq!(written.len(), 300);
    assert_eq!(written, content);
}

#[test]
fn write_of_several_blocks() {
    let mut t = WriteTransfer::new();
    t.step(WriteEvent::Created { ok: true });
    let (b, p) = expect_store(t.step(WriteEvent::Frame(Packet::new_data(1, [1u8; 512], 512))));
    assert_eq!((b, p), (1, vec![1u8; 512]));
    assert_eq!((t.phase(), t.expected()), (WritePhase::Writing, 2));
    let (b, p) = expect_store(t.step(WriteEvent::Frame(Packet::new_data(2, [2u8; 512], 512))));
    assert_eq!((b, p), (2, vec![2u8; 512]));
    assert_eq!((t.phase(), t.expected()), (WritePhase::Writing, 3));
    let (b, p) = expect_store(t.step(WriteEvent::Frame(Packet::new_data(3, [3u8; 512], 0))));
    assert_eq!((b, p), (3, Vec::new()));
    assert_eq!(t.phase(), WritePhase::Done);
}

#[test]
fn write_ignores_unexpected_blocks_and_acks() {
    let mut t = WriteTransfer::new();
    t.step(WriteEvent::Created { ok: true });
    for wrong in [0u16, 2, 7] {
        assert!(matches!(
            t.step(WriteEvent::Frame(Packet::new_data(wrong, [9u8; 512], 10))),
            WriteAction::Nothing
        ));
    }
    assert!(matches!(
        t.step(WriteEvent::Frame(Packet::new_ack(1))),
        WriteAction::Nothing
    ));
    assert_eq!((t.phase(), t.expected()), (WritePhase::AwaitingFirstData, 1));
    t.step(WriteEvent::Frame(Packet::new_data(1, [1u8; 512], 512)));
    // the same block again is not stored twice
    assert!(matches!(
        t.step(WriteEvent::Frame(Packet::new_data(1, [1u8; 512], 512))),
        WriteAction::Nothing
    ));
    assert_eq!((t.phase(), t.expected()), (WritePhase::Writing, 2));
}

#[test]
fn write_create_failure_reports_undefined_error() {
    let mut t = WriteTransfer::new();
    match t.step(WriteEvent::Created { ok: false }) {
        WriteAction::Send(Packet::Error { code, msg }) => {
            assert_eq!(code, SEE_MSG);
            assert_eq!(msg, "There was an error creating/accessing the file");
        }
        other => panic!("expected an error frame, got {:?}", other),
    }
    assert_eq!(t.phase(), WritePhase::Aborted);
}

#[test]
fn write_aborts_on_peer_error() {
    let mut t = WriteTransfer::new();
    t.step(WriteEvent::Created { ok: true });
    assert!(matches!(
        t.step(WriteEvent::Frame(Packet::new_error(0, "stop"))),
        WriteAction::Nothing
    ));
    assert_eq!(t.phase(), WritePhase::Aborted);
}

#[test]
fn write_resends_last_ack_on_timeout_then_gives_up() {
    let mut t = WriteTransfer::new();
    t.step(WriteEvent::Created { ok: true });
    assert_eq!(expect_ack(t.step(WriteEvent::Timeout)), 0);
    t.step(WriteEvent::Frame(Packet::new_data(1, [1u8; 512], 512)));
    for _ in 0..MAX_RETRIES {
        assert_eq!(expect_ack(t.step(WriteEvent::Timeout)), 1);
    }
    assert!(matches!(t.step(WriteEvent::Timeout), WriteAction::Nothing));
    assert_eq!(t.phase(), WritePhase::Aborted);
}

#[test]
fn write_failure_reports_disk_full() {
    let mut t = WriteTransfer::new();
    t.step(WriteEvent::Created { ok: true });
    t.step(WriteEvent::Frame(Packet::new_data(1, [1u8; 512], 5)));
    assert_eq!(t.phase(), WritePhase::Done);
    match t.step(WriteEvent::Failure) {
        WriteAction::Send(Packet::Error { code, .. }) => assert_eq!(code, DISK_FULL),
        other => panic!("expected an error frame, got {:?}", other),
    }
    assert_eq!(t.phase(), WritePhase::Aborted);
}

#[test]
fn write_ignores_events_out_of_phase() {
    let mut t = WriteTransfer::new();
    assert!(matches!(t.step(WriteEvent::Timeout), WriteAction::Nothing));
    assert!(matches!(t.step(WriteEvent::Failure), WriteAction::Nothing));
    assert!(matches!(
        t.step(WriteEvent::Frame(Packet::new_data(0, [0u8; 512], 1))),
        WriteAction::Nothing
    ));
    assert_eq!((t.phase(), t.expected()), (WritePhase::Idle, 0));
}
