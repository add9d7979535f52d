use glide::data::CHUNK_SIZE;
use glide::protocol::Transmission;
use glide::transfers::{file_frames, Receiver, TransferError};

#[test]
fn receiver_needs_metadata_first() {
    let r = Receiver::start(Transmission::Chunk("a".to_string(), vec![1]));
    assert!(matches!(r, Err(TransferError::ProtocolMismatch)));
}

#[test]
fn receiver_collects_announced_bytes() {
    let mut r = Receiver::start(Transmission::Metadata("report.pdf".to_string(), 12)).unwrap();
    assert!(!r.is_complete());
    let d = r.accept(Transmission::Chunk("report.pdf".to_string(), b"hello ".to_vec())).unwrap();
    assert_eq!(d, b"hello ".to_vec());
    assert!(!r.is_complete());
    r.accept(Transmission::Chunk("report.pdf".to_string(), b"world!".to_vec())).unwrap();
    assert!(r.is_complete());
    assert_eq!(r.received, 12);
}

#[test]
fn receiver_rejects_other_file_name() {
    let mut r = Receiver::start(Transmission::Metadata("a".to_string(), 3)).unwrap();
    let e = r.accept(Transmission::Chunk("b".to_string(), vec![1, 2, 3]));
    assert_eq!(e, Err(TransferError::ProtocolMismatch));
    assert_eq!(r.received, 0);
}

#[test]
fn receiver_rejects_other_frame() {
    let mut r = Receiver::start(Transmission::Metadata("a".to_string(), 3)).unwrap();
    assert_eq!(r.accept(Transmission::OkSuccess), Err(TransferError::ProtocolMismatch));
}

#[test]
fn receiver_rejects_too_many_bytes() {
    let mut r = Receiver::start(Transmission::Metadata("a".to_string(), 3)).unwrap();
    assert_eq!(
        r.accept(Transmission::Chunk("a".to_string(), vec![1, 2, 3, 4])),
        Err(TransferError::ProtocolMismatch)
    );
}

#[test]
fn empty_file_is_complete_at_once() {
    let r = Receiver::start(Transmission::Metadata("e".to_string(), 0)).unwrap();
    assert!(r.is_complete());
}

#[test]
fn frames_for_small_file() {
    let frames = file_frames("report.pdf", b"hello world!");
    assert_eq!(frames.len(), 2);
    assert!(matches!(&frames[0], Transmission::Metadata(n, 12) if n == "report.pdf"));
    assert!(matches!(&frames[1], Transmission::Chunk(n, d) if n == "report.pdf" && d == b"hello world!"));
}

#[test]
fn frames_for_empty_file() {
    let frames = file_frames("e", &[]);
    assert_eq!(frames.len(), 1);
    assert!(matches!(&frames[0], Transmission::Metadata(_, 0)));
}

#[test]
fn frames_split_at_chunk_size() {
    let data: Vec<u8> = (0..(2 * CHUNK_SIZE + 5)).map(|i| (i % 251) as u8).collect();
    let frames = file_frames("f", &data);
    assert_eq!(frames.len(), 4);
    let mut joined = Vec::new();
    for f in &frames[1..] {
        match f {
            Transmission::Chunk(_, d) => {
                assert!(d.len() <= CHUNK_SIZE);
                joined.extend_from_slice(d);
            }
            other => panic!("{:?}", other),
        }
    }
    assert_eq!(joined, data);
    assert!(matches!(&frames[3], Transmission::Chunk(_, d) if d.len() == 5));
}

#[test]
fn frames_feed_a_receiver() {
    let data = vec![9u8; CHUNK_SIZE * 3];
    let mut frames = file_frames("f", &data).into_iter();
    let mut r = Receiver::start(frames.next().unwrap()).unwrap();
    let mut got = Vec::new();
    for f in frames {
        got.extend(r.accept(f).unwrap());
    }
    assert!(r.is_complete());
    assert_eq!(got, data);
}

#[test]
fn closed_stream_before_all_bytes_is_unexpected_end() {
    let mut r = Receiver::start(Transmission::Metadata("a".to_string(), 10)).unwrap();
    r.accept(Transmission::Chunk("a".to_string(), vec![1, 2, 3])).unwrap();
    assert_eq!(r.closed(), Err(TransferError::UnexpectedEnd));
    r.accept(Transmission::Chunk("a".to_string(), vec![0; 7])).unwrap();
    assert_eq!(r.closed(), Ok(()));
}
