use teleterm::client::ClientEvent;
use teleterm::process::translate_output;
use teleterm::stream::{ServerStep, StreamSession};
use teleterm::protocol::{Auth, Message, Size, PROTO_VERSION};
use teleterm::server::{Server, Error, WriteStep};

fn s(x: &str) -> String {
    x.to_string()
}

fn login(user: &str) -> Message {
    Message::Login {
        proto_version: PROTO_VERSION,
        auth: Auth::Plain { username: s(user) },
        size: Size { rows: 24, cols: 80 },
        term_type: s("xterm"),
    }
}

/// Everything queued on `id`, and whether the connection was dropped after it.
fn drain(server: &mut Server, id: &str) -> (Vec<Message>, bool) {
    let mut out = Vec::new();
    loop {
        match server.poll_write_connection(&s(id)) {
            WriteStep::Send(m) => out.push(m),
            WriteStep::Finished => return (out, true),
            WriteStep::Idle => return (out, false),
            WriteStep::Unknown => panic!("no such connection"),
        }
    }
}

fn out(data: &[u8]) -> Message {
    Message::TerminalOutput { data: data.to_vec() }
}

fn caster_and_watcher(server: &mut Server) {
    assert!(server.add_connection(s("c"), 0));
    assert!(server.add_connection(s("w"), 0));
    server.receive(&s("c"), login("streamer"), 0).unwrap();
    server.receive(&s("c"), Message::StartCasting, 0).unwrap();
    server.receive(&s("w"), login("viewer"), 0).unwrap();
    server.receive(&s("w"), Message::StartWatching { id: s("c") }, 0).unwrap();
}

#[test]
fn echo_stream_reaches_watcher_then_disconnects() {
    let mut server = Server::new(4096);
    caster_and_watcher(&mut server);
    let (primer, _) = drain(&mut server, "w");
    assert_eq!(primer, vec![out(b"")]);
    let chunk = translate_output(b"hello\n", false);
    server.receive(&s("c"), Message::TerminalOutput { data: chunk }, 1).unwrap();
    assert!(server.drop_connection(&s("c")));
    let (msgs, finished) = drain(&mut server, "w");
    assert_eq!(msgs, vec![out(b"hello\r\n"), Message::Disconnected]);
    assert!(finished);
    assert_eq!(server.len(), 0);
}

#[test]
fn late_joiner_gets_primer_then_new_output() {
    let mut server = Server::new(4096);
    server.add_connection(s("c"), 0);
    server.receive(&s("c"), login("streamer"), 0).unwrap();
    server.receive(&s("c"), Message::StartCasting, 0).unwrap();
    server.receive(&s("c"), out(b"AA"), 0).unwrap();
    server.receive(&s("c"), out(b"AA"), 0).unwrap();
    server.add_connection(s("w"), 0);
    server.receive(&s("w"), login("viewer"), 0).unwrap();
    server.receive(&s("w"), Message::StartWatching { id: s("c") }, 0).unwrap();
    server.receive(&s("c"), out(b"B"), 0).unwrap();
    let (msgs, finished) = drain(&mut server, "w");
    assert_eq!(msgs, vec![out(b"AAAA"), out(b"B")]);
    assert!(!finished);
}

#[test]
fn primer_holds_truncated_replay() {
    let mut server = Server::new(8);
    server.add_connection(s("c"), 0);
    server.receive(&s("c"), login("streamer"), 0).unwrap();
    server.receive(&s("c"), Message::StartCasting, 0).unwrap();
    server.receive(&s("c"), out(b"12345678"), 0).unwrap();
    server.receive(&s("c"), out(b"9A"), 0).unwrap();
    server.add_connection(s("w"), 0);
    server.receive(&s("w"), login("viewer"), 0).unwrap();
    server.receive(&s("w"), Message::StartWatching { id: s("c") }, 0).unwrap();
    let (msgs, _) = drain(&mut server, "w");
    assert_eq!(msgs, vec![out(b"3456789A")]);
}

#[test]
fn invalid_watch_id_closes_with_error() {
    let mut server = Server::new(16);
    server.add_connection(s("w"), 0);
    server.receive(&s("w"), login("viewer"), 0).unwrap();
    let e = server.receive(&s("w"), Message::StartWatching { id: s("nope") }, 0).unwrap_err();
    assert_eq!(e, Error::InvalidWatchId { id: s("nope") });
    assert_eq!(e.message(), "invalid watch id: nope");
    let (msgs, finished) = drain(&mut server, "w");
    assert_eq!(msgs, vec![Message::Error { msg: s("invalid watch id: nope") }]);
    assert!(finished);
}

#[test]
fn watching_a_non_caster_is_invalid() {
    let mut server = Server::new(16);
    server.add_connection(s("a"), 0);
    server.add_connection(s("w"), 0);
    server.receive(&s("a"), login("idle"), 0).unwrap();
    server.receive(&s("w"), login("viewer"), 0).unwrap();
    let e = server.receive(&s("w"), Message::StartWatching { id: s("a") }, 0).unwrap_err();
    assert_eq!(e, Error::InvalidWatchId { id: s("a") });
}

#[test]
fn messages_before_login_are_refused() {
    let mut server = Server::new(16);
    server.add_connection(s("x"), 0);
    let e = server.receive(&s("x"), out(b"sneaky"), 0).unwrap_err();
    assert_eq!(e, Error::UnauthenticatedMessage);
    let (msgs, finished) = drain(&mut server, "x");
    assert_eq!(msgs, vec![Message::Error { msg: s("unauthenticated message") }]);
    assert!(finished);
}

#[test]
fn wrong_protocol_version_is_refused() {
    let mut server = Server::new(16);
    server.add_connection(s("x"), 0);
    let m = Message::Login {
        proto_version: PROTO_VERSION + 1,
        auth: Auth::Plain { username: s("u") },
        size: Size { rows: 1, cols: 1 },
        term_type: s("t"),
    };
    let e = server.receive(&s("x"), m, 0).unwrap_err();
    assert_eq!(e, Error::ProtoVersionMismatch);
    let (msgs, _) = drain(&mut server, "x");
    assert_eq!(msgs, vec![Message::Error { msg: s("proto version mismatch") }]);
}

#[test]
fn heartbeats_are_mirrored_and_watchers_may_send_nothing_else() {
    let mut server = Server::new(16);
    caster_and_watcher(&mut server);
    drain(&mut server, "w");
    server.receive(&s("c"), Message::Heartbeat, 0).unwrap();
    assert_eq!(drain(&mut server, "c"), (vec![Message::Heartbeat], false));
    server.receive(&s("w"), Message::Heartbeat, 0).unwrap();
    assert_eq!(drain(&mut server, "w"), (vec![Message::Heartbeat], false));
    let e = server.receive(&s("w"), out(b"x"), 0).unwrap_err();
    assert_eq!(e, Error::UnexpectedMessage);
}

#[test]
fn caster_output_fans_out_in_order_to_every_watcher() {
    let mut server = Server::new(64);
    caster_and_watcher(&mut server);
    server.add_connection(s("w2"), 0);
    server.receive(&s("w2"), login("other"), 0).unwrap();
    server.receive(&s("w2"), Message::StartWatching { id: s("c") }, 0).unwrap();
    drain(&mut server, "w");
    drain(&mut server, "w2");
    for chunk in [&b"ab"[..], b"c", b"def"].iter() {
        server.receive(&s("c"), out(chunk), 0).unwrap();
    }
    server.receive(&s("c"), Message::Resize { size: Size { rows: 3, cols: 4 } }, 0).unwrap();
    for w in ["w", "w2"].iter() {
        let (msgs, _) = drain(&mut server, w);
        assert_eq!(
            msgs,
            vec![out(b"ab"), out(b"c"), out(b"def"), Message::Resize { size: Size { rows: 3, cols: 4 } }]
        );
    }
    assert_eq!(drain(&mut server, "c"), (vec![], false));
}

#[test]
fn watcher_leaving_does_not_touch_caster() {
    let mut server = Server::new(64);
    caster_and_watcher(&mut server);
    assert!(server.read_eof(&s("w")));
    let (_, finished) = drain(&mut server, "w");
    assert!(finished);
    server.receive(&s("c"), out(b"still here"), 0).unwrap();
    assert_eq!(drain(&mut server, "c"), (vec![], false));
    assert_eq!(server.len(), 1);
}

#[test]
fn caster_eof_closes_watchers_after_its_queue() {
    let mut server = Server::new(64);
    caster_and_watcher(&mut server);
    drain(&mut server, "w");
    server.receive(&s("c"), Message::Heartbeat, 0).unwrap();
    server.read_eof(&s("c"));
    assert_eq!(drain(&mut server, "c"), (vec![Message::Heartbeat], true));
    assert_eq!(drain(&mut server, "w"), (vec![Message::Disconnected], true));
}

#[test]
fn list_sessions_reports_casters() {
    let mut server = Server::new(64);
    caster_and_watcher(&mut server);
    server.add_connection(s("l"), 0);
    server.receive(&s("l"), login("lister"), 10).unwrap();
    server.receive(&s("l"), Message::ListSessions, 75).unwrap();
    let (msgs, _) = drain(&mut server, "l");
    assert_eq!(msgs.len(), 1);
    match &msgs[0] {
        Message::Sessions { sessions } => {
            assert_eq!(sessions.len(), 1);
            assert_eq!(sessions[0].id, "c");
            assert_eq!(sessions[0].username, "streamer");
            assert_eq!(sessions[0].term_type, "xterm");
            assert_eq!(sessions[0].size, Size { rows: 24, cols: 80 });
            assert_eq!(sessions[0].idle_time, 75);
            assert_eq!(sessions[0].watchers, 1);
        }
        other => panic!("unexpected {:?}", other),
    }
}

#[test]
fn unknown_connections_and_duplicate_ids() {
    let mut server = Server::new(8);
    assert!(server.add_connection(s("a"), 0));
    assert!(!server.add_connection(s("a"), 0));
    assert_eq!(server.len(), 1);
    assert_eq!(
        server.receive(&s("zz"), Message::Heartbeat, 0).unwrap_err(),
        Error::UnknownConnection
    );
    assert_eq!(server.poll_write_connection(&s("zz")), WriteStep::Unknown);
    assert!(!server.read_eof(&s("zz")));
    assert!(!server.drop_connection(&s("zz")));
}

#[test]
fn recurse_center_login_is_unsupported() {
    let mut server = Server::new(8);
    server.add_connection(s("a"), 0);
    let m = Message::Login {
        proto_version: PROTO_VERSION,
        auth: Auth::RecurseCenter { id: None },
        size: Size { rows: 1, cols: 1 },
        term_type: s("t"),
    };
    assert_eq!(server.receive(&s("a"), m, 0).unwrap_err(), Error::UnsupportedAuth);
    assert_eq!(Error::UnsupportedAuth.message(), "unsupported login method");
}

#[test]
fn reconnect_resend_reaches_a_later_watcher_once() {
    let mut st = StreamSession::new(1024);
    let mut server = Server::new(1024);
    st.poll_read_client(ClientEvent::Connect);
    st.record_bytes(b"X");
    // the connection drops before the byte is written
    st.poll_read_client(ClientEvent::Disconnect);
    assert_eq!(st.poll_write_server(), ServerStep::Idle);
    st.poll_read_client(ClientEvent::Connect);
    server.add_connection(s("c"), 0);
    server.receive(&s("c"), login("streamer"), 0).unwrap();
    server.receive(&s("c"), Message::StartCasting, 0).unwrap();
    while let ServerStep::Send(data) = st.poll_write_server() {
        server.receive(&s("c"), Message::TerminalOutput { data }, 0).unwrap();
    }
    server.add_connection(s("w"), 0);
    server.receive(&s("w"), login("viewer"), 0).unwrap();
    server.receive(&s("w"), Message::StartWatching { id: s("c") }, 0).unwrap();
    let (msgs, _) = drain(&mut server, "w");
    assert_eq!(msgs, vec![out(b"X")]);
}

#[test]
fn logged_in_connection_without_role_may_send_heartbeats() {
    let mut server = Server::new(8);
    server.add_connection(s("l"), 0);
    server.receive(&s("l"), login("lister"), 0).unwrap();
    server.receive(&s("l"), Message::Heartbeat, 0).unwrap();
    assert_eq!(drain(&mut server, "l"), (vec![Message::Heartbeat], false));
    let e = server.receive(&s("l"), Message::Disconnected, 0).unwrap_err();
    assert_eq!(e, Error::UnexpectedMessage);
}
