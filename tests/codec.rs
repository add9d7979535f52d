use glide::commands::Command;
use glide::data::Request;
use glide::protocol::{Decoded, Transmission};

fn decode_all(bytes: &[u8]) -> Transmission {
    match Transmission::decode(bytes) {
        Decoded::Frame(t, n) => {
            assert_eq!(n, bytes.len());
            t
        }
        Decoded::NeedMore(k) => panic!("needs {} more bytes", k),
        Decoded::Malformed => panic!("malformed"),
    }
}

#[test]
fn username_bytes() {
    let t = Transmission::Username("alice".to_string());
    assert_eq!(t.to_bytes(), b"\x01alice\x00".to_vec());
}

#[test]
fn empty_frames_are_one_tag_byte() {
    assert_eq!(Transmission::UsernameOk.to_bytes(), vec![2]);
    assert_eq!(Transmission::UsernameTaken.to_bytes(), vec![3]);
    assert_eq!(Transmission::UsernameInvalid.to_bytes(), vec![4]);
    assert_eq!(Transmission::OkFailed.to_bytes(), vec![10]);
    assert_eq!(Transmission::NoSuccess.to_bytes(), vec![11]);
    assert_eq!(Transmission::ClientDisconnected.to_bytes(), vec![12]);
    assert_eq!(Transmission::GlideRequestSent.to_bytes(), vec![13]);
    assert_eq!(Transmission::OkSuccess.to_bytes(), vec![14]);
}

#[test]
fn metadata_bytes_are_big_endian() {
    let t = Transmission::Metadata("report.pdf".to_string(), 0x0102_0304);
    let mut want = b"\x05report.pdf\x00".to_vec();
    want.extend_from_slice(&[1, 2, 3, 4]);
    assert_eq!(t.to_bytes(), want);
}

#[test]
fn chunk_bytes() {
    let t = Transmission::Chunk("report.pdf".to_string(), b"hello world!".to_vec());
    let mut want = b"\x06report.pdf\x00".to_vec();
    want.extend_from_slice(&[0, 12]);
    want.extend_from_slice(b"hello world!");
    assert_eq!(t.to_bytes(), want);
}

#[test]
fn chunk_of_largest_size() {
    let data = vec![7u8; 65535];
    let t = Transmission::Chunk("f".to_string(), data.clone());
    assert!(t.fits());
    let bytes = t.to_bytes();
    assert_eq!(&bytes[3..5], &[0xFF, 0xFF]);
    match decode_all(&bytes) {
        Transmission::Chunk(f, d) => {
            assert_eq!(f, "f");
            assert_eq!(d, data);
        }
        other => panic!("{:?}", other),
    }
}

#[test]
fn oversized_chunk_does_not_fit() {
    let t = Transmission::Chunk("f".to_string(), vec![0u8; 65536]);
    assert!(!t.fits());
}

#[test]
fn connected_users_bytes() {
    let t = Transmission::ConnectedUsers(vec!["bob".to_string(), "carol".to_string()]);
    assert_eq!(t.to_bytes(), b"\x07\x00\x02bob\x00carol\x00".to_vec());
}

#[test]
fn incoming_requests_bytes() {
    let t = Transmission::IncomingRequests(vec![Request {
        sender: "alice".to_string(),
        filename: "report.pdf".to_string(),
    }]);
    assert_eq!(t.to_bytes(), b"\x08\x00\x01alice\x00report.pdf\x00".to_vec());
}

#[test]
fn command_bytes() {
    assert_eq!(Transmission::Command(Command::List).to_bytes(), vec![9, 1]);
    assert_eq!(Transmission::Command(Command::Requests).to_bytes(), vec![9, 2]);
    let g = Command::Glide { path: "docs/report.pdf".to_string(), to: "bob".to_string() };
    assert_eq!(Transmission::Command(g).to_bytes(), b"\x09\x03docs/report.pdf\x00bob\x00".to_vec());
    assert_eq!(
        Transmission::Command(Command::Accept("alice".to_string())).to_bytes(),
        b"\x09\x04alice\x00".to_vec()
    );
    assert_eq!(
        Transmission::Command(Command::No("alice".to_string())).to_bytes(),
        b"\x09\x05alice\x00".to_vec()
    );
}

#[test]
fn round_trip_every_variant() {
    let frames = vec![
        Transmission::Username("älice".to_string()),
        Transmission::UsernameOk,
        Transmission::UsernameTaken,
        Transmission::UsernameInvalid,
        Transmission::Command(Command::List),
        Transmission::Command(Command::Requests),
        Transmission::Command(Command::Glide { path: "a/b".to_string(), to: "bob".to_string() }),
        Transmission::Command(Command::Accept("alice".to_string())),
        Transmission::Command(Command::No("alice".to_string())),
        Transmission::GlideRequestSent,
        Transmission::Metadata("x.txt".to_string(), 4_000_000_000),
        Transmission::Chunk("x.txt".to_string(), vec![0, 1, 2, 0]),
        Transmission::ConnectedUsers(vec![]),
        Transmission::ConnectedUsers(vec!["bob".to_string(), "日本".to_string()]),
        Transmission::IncomingRequests(vec![
            Request { sender: "a".to_string(), filename: "f".to_string() },
            Request { sender: "b".to_string(), filename: "g".to_string() },
        ]),
        Transmission::OkSuccess,
        Transmission::OkFailed,
        Transmission::NoSuccess,
        Transmission::ClientDisconnected,
    ];
    for t in frames {
        let bytes = t.to_bytes();
        let back = decode_all(&bytes);
        assert_eq!(format!("{:?}", back), format!("{:?}", t));
    }
}

#[test]
fn decode_stops_at_frame_end() {
    let mut bytes = Transmission::Username("bob".to_string()).to_bytes();
    bytes.extend_from_slice(&[2, 3, 4]);
    match Transmission::decode(&bytes) {
        Decoded::Frame(Transmission::Username(u), n) => {
            assert_eq!(u, "bob");
            assert_eq!(n, 5);
        }
        _ => panic!("expected a username frame"),
    }
}

#[test]
fn decode_skips_zero_padding() {
    match Transmission::decode(&[0, 0, 0, 14]) {
        Decoded::Frame(Transmission::OkSuccess, n) => assert_eq!(n, 4),
        _ => panic!("expected OkSuccess"),
    }
}

#[test]
fn decode_empty_or_padding_needs_more() {
    assert!(matches!(Transmission::decode(&[]), Decoded::NeedMore(1)));
    assert!(matches!(Transmission::decode(&[0, 0]), Decoded::NeedMore(1)));
}

#[test]
fn decode_partial_frames_need_more() {
    assert!(matches!(Transmission::decode(b"\x01ali"), Decoded::NeedMore(1)));
    assert!(matches!(Transmission::decode(b"\x05f\x00\x01"), Decoded::NeedMore(3)));
    assert!(matches!(Transmission::decode(b"\x06f\x00\x00\x0Aabc"), Decoded::NeedMore(7)));
    assert!(matches!(Transmission::decode(b"\x07\x00"), Decoded::NeedMore(1)));
    assert!(matches!(Transmission::decode(b"\x09"), Decoded::NeedMore(1)));
}

#[test]
fn decode_unknown_tag_is_malformed() {
    assert!(matches!(Transmission::decode(&[0x0F]), Decoded::Malformed));
    assert!(matches!(Transmission::decode(&[0xFF, 1, 2]), Decoded::Malformed));
}

#[test]
fn decode_unknown_command_is_malformed() {
    assert!(matches!(Transmission::decode(&[9, 6]), Decoded::Malformed));
    assert!(matches!(Transmission::decode(&[9, 0]), Decoded::Malformed));
}

#[test]
fn decode_invalid_utf8_is_malformed() {
    assert!(matches!(Transmission::decode(&[1, 0xFF, 0xFE, 0]), Decoded::Malformed));
}

#[test]
fn decode_multibyte_username() {
    let bytes = "\u{1}zoë\0".as_bytes().to_vec();
    match Transmission::decode(&bytes) {
        Decoded::Frame(Transmission::Username(u), n) => {
            assert_eq!(u, "zoë");
            assert_eq!(n, bytes.len());
        }
        _ => panic!("expected a username frame"),
    }
}
