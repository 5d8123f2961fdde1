use teleterm::codec;
use teleterm::codec::{read, CodecError, MAX_FRAME};
use teleterm::protocol::{Auth, Message, Session, Size};

fn round_trip(m: Message) {
    let bytes = codec::write(&m).unwrap();
    let mut with_rest = bytes.clone();
    with_rest.extend_from_slice(b"rest");
    let (back, n) = read(&with_rest).unwrap();
    assert_eq!(back, m);
    assert_eq!(n, bytes.len());
}

fn sample_session(id: &str, user: &str, idle: u32) -> Session {
    Session {
        id: id.to_string(),
        username: user.to_string(),
        term_type: "xterm".to_string(),
        size: Size { rows: 24, cols: 80 },
        idle_time: idle,
        title: "tïtle".to_string(),
        watchers: 2,
    }
}

#[test]
fn round_trip_every_variant() {
    round_trip(Message::Login {
        proto_version: 1,
        auth: Auth::Plain { username: "doy".to_string() },
        size: Size { rows: 24, cols: 80 },
        term_type: "screen".to_string(),
    });
    round_trip(Message::Login {
        proto_version: 7,
        auth: Auth::RecurseCenter { id: None },
        size: Size { rows: 1, cols: 65535 },
        term_type: String::new(),
    });
    round_trip(Message::Login {
        proto_version: 1,
        auth: Auth::RecurseCenter { id: Some("tok€n".to_string()) },
        size: Size { rows: 300, cols: 2 },
        term_type: "xterm".to_string(),
    });
    round_trip(Message::StartCasting);
    round_trip(Message::StartWatching { id: "abc".to_string() });
    round_trip(Message::Heartbeat);
    round_trip(Message::TerminalOutput { data: vec![0, 10, 13, 255] });
    round_trip(Message::TerminalOutput { data: vec![] });
    round_trip(Message::Resize { size: Size { rows: 50, cols: 132 } });
    round_trip(Message::ListSessions);
    round_trip(Message::Sessions { sessions: vec![] });
    round_trip(Message::Sessions {
        sessions: vec![sample_session("a", "u1", 5), sample_session("b", "ü2", 70000)],
    });
    round_trip(Message::Disconnected);
    round_trip(Message::Error { msg: "invalid watch id: nope".to_string() });
}

#[test]
fn frame_layout_is_length_then_tag_then_fields() {
    let bytes = codec::write(&Message::StartWatching { id: "ab".to_string() }).unwrap();
    assert_eq!(bytes, vec![0, 0, 0, 7, 2, 0, 0, 0, 2, b'a', b'b']);
    let bytes = codec::write(&Message::Resize { size: Size { rows: 258, cols: 3 } }).unwrap();
    assert_eq!(bytes, vec![0, 0, 0, 5, 5, 1, 2, 0, 3]);
    assert_eq!(codec::write(&Message::Heartbeat).unwrap(), vec![0, 0, 0, 1, 3]);
}

#[test]
fn empty_input_is_eof() {
    assert_eq!(read(&[]).unwrap_err(), CodecError::Eof);
}

#[test]
fn partial_frame_is_unexpected_eof() {
    assert_eq!(read(&[0, 0]).unwrap_err(), CodecError::UnexpectedEof);
    let bytes = codec::write(&Message::Error { msg: "boom".to_string() }).unwrap();
    assert_eq!(read(&bytes[..bytes.len() - 1]).unwrap_err(), CodecError::UnexpectedEof);
}

#[test]
fn oversize_frame_is_refused() {
    let n = (MAX_FRAME as u32) + 1;
    let hdr = n.to_be_bytes();
    assert_eq!(read(&hdr).unwrap_err(), CodecError::Oversize);
}

#[test]
fn oversize_message_is_not_written() {
    let m = Message::TerminalOutput { data: vec![0; MAX_FRAME] };
    assert_eq!(codec::write(&m).unwrap_err(), CodecError::Oversize);
    let m = Message::TerminalOutput { data: vec![0; MAX_FRAME + 1] };
    assert_eq!(codec::write(&m).unwrap_err(), CodecError::Oversize);
}

#[test]
fn unknown_tag_is_invalid() {
    assert_eq!(read(&[0, 0, 0, 1, 10]).unwrap_err(), CodecError::InvalidTag);
    assert_eq!(read(&[0, 0, 0, 0]).unwrap_err(), CodecError::InvalidTag);
}

#[test]
fn bad_payloads_are_malformed() {
    // trailing byte after a heartbeat
    assert_eq!(read(&[0, 0, 0, 2, 3, 0]).unwrap_err(), CodecError::Malformed);
    // a string that is not UTF-8
    assert_eq!(read(&[0, 0, 0, 6, 9, 0, 0, 0, 1, 0xff]).unwrap_err(), CodecError::Malformed);
    // a blob longer than its frame
    assert_eq!(read(&[0, 0, 0, 5, 4, 0, 0, 0, 9]).unwrap_err(), CodecError::Malformed);
    // an auth tag that names nothing
    assert_eq!(
        read(&[0, 0, 0, 4, 0, 1, 2, 0]).unwrap_err(),
        CodecError::Malformed
    );
}

#[test]
fn two_frames_in_a_row() {
    let mut bytes = codec::write(&Message::Heartbeat).unwrap();
    bytes.extend(codec::write(&Message::Disconnected).unwrap());
    let (a, n) = read(&bytes).unwrap();
    assert_eq!(a, Message::Heartbeat);
    let (b, m) = read(&bytes[n..]).unwrap();
    assert_eq!(b, Message::Disconnected);
    assert_eq!(n + m, bytes.len());
}
