use teleterm::client::{reconnect_delay, Client, ClientEvent, ClientRole, ConnState, TickAction};
use teleterm::protocol::{Auth, Message, Size, PROTO_VERSION};

fn up(c: &mut Client, now: u64) -> Vec<Message> {
    if c.state() == ConnState::Idle {
        c.start();
    }
    let hs = c.connected(
        now,
        &Auth::Plain { username: "u".to_string() },
        Size { rows: 24, cols: 80 },
        &"xterm".to_string(),
    );
    c.handshake_flushed();
    hs
}

#[test]
fn backoff_doubles_up_to_thirty_seconds() {
    assert_eq!(reconnect_delay(0, 0), 500);
    assert_eq!(reconnect_delay(1, 0), 1000);
    assert_eq!(reconnect_delay(5, 0), 16000);
    assert_eq!(reconnect_delay(6, 0), 30000);
    assert_eq!(reconnect_delay(40, 0), 30000);
    assert_eq!(reconnect_delay(u32::MAX, 0), 30000);
    assert_eq!(reconnect_delay(0, 250), 625);
    assert_eq!(reconnect_delay(0, -250), 375);
    assert_eq!(reconnect_delay(7, 100), 33000);
}

#[test]
fn handshake_depends_on_role() {
    let mut c = Client::new(ClientRole::Watcher("abc".to_string()), 1000);
    let hs = up(&mut c, 0);
    assert_eq!(
        hs,
        vec![
            Message::Login {
                proto_version: PROTO_VERSION,
                auth: Auth::Plain { username: "u".to_string() },
                size: Size { rows: 24, cols: 80 },
                term_type: "xterm".to_string(),
            },
            Message::StartWatching { id: "abc".to_string() },
        ]
    );
    let mut s = Client::new(ClientRole::Streamer, 1000);
    assert_eq!(up(&mut s, 0)[1], Message::StartCasting);
    let mut l = Client::new(ClientRole::Lister, 1000);
    assert_eq!(up(&mut l, 0)[1], Message::ListSessions);
    assert_eq!(c.state(), ConnState::Connected);
}

#[test]
fn heartbeat_liveness_reconnects_exactly_once() {
    let mut c = Client::new(ClientRole::Streamer, 1000);
    up(&mut c, 0);
    let mut heartbeats = 0;
    let mut disconnects = 0;
    let mut connects = 0;
    let mut t = 0;
    while t <= 4000 {
        match c.tick(t, 0) {
            TickAction::SendHeartbeat => heartbeats += 1,
            TickAction::Disconnect => {
                disconnects += 1;
                assert_eq!(t, 3000);
            }
            TickAction::Connect => {
                connects += 1;
                assert_eq!(t, 3500);
            }
            TickAction::Nothing => {}
        }
        t += 100;
    }
    assert_eq!(disconnects, 1);
    assert_eq!(connects, 1);
    assert_eq!(heartbeats, 2);
    assert_eq!(c.state(), ConnState::Connecting);
    up(&mut c, 4100);
    assert_eq!(c.state(), ConnState::Connected);
}

#[test]
fn reconnect_waits_for_backoff() {
    let mut c = Client::new(ClientRole::Streamer, 1000);
    up(&mut c, 0);
    assert_eq!(c.failed(100, 0), Some(ClientEvent::Disconnect));
    assert_eq!(c.failed(100, 0), None);
    assert_eq!(c.tick(599, 0), TickAction::Nothing);
    assert_eq!(c.tick(600, 0), TickAction::Connect);
    c.connected(700, &Auth::Plain { username: "u".to_string() }, Size { rows: 1, cols: 1 }, &"t".to_string());
    // a second failure before the handshake finished backs off longer
    assert_eq!(c.failed(800, 0), Some(ClientEvent::Disconnect));
    assert_eq!(c.tick(1799, 0), TickAction::Nothing);
    assert_eq!(c.tick(1800, 0), TickAction::Connect);
}

#[test]
fn queue_is_sent_only_when_connected_and_dropped_on_loss() {
    let mut c = Client::new(ClientRole::Lister, 1000);
    c.send_message(Message::ListSessions);
    assert_eq!(c.next_outgoing(), None);
    up(&mut c, 0);
    assert_eq!(c.next_outgoing(), Some(Message::ListSessions));
    assert_eq!(c.next_outgoing(), None);
    c.send_message(Message::Heartbeat);
    c.failed(5, 0);
    c.tick(10_000, 0);
    up(&mut c, 10_000);
    assert_eq!(c.next_outgoing(), None);
}

#[test]
fn received_messages_are_sorted_out() {
    let mut c = Client::new(ClientRole::Streamer, 1000);
    up(&mut c, 0);
    assert_eq!(c.received(Message::Heartbeat, 10), None);
    let sz = Size { rows: 5, cols: 6 };
    assert_eq!(c.received(Message::Resize { size: sz }, 10), Some(ClientEvent::Resize(sz)));
    assert_eq!(
        c.received(Message::Disconnected, 10),
        Some(ClientEvent::ServerMessage(Message::Disconnected))
    );
    // hearing from the server keeps the connection alive
    assert_eq!(c.tick(2999, 0), TickAction::SendHeartbeat);
    assert_eq!(c.tick(3000, 0), TickAction::Nothing);
    assert_eq!(c.tick(3010, 0), TickAction::Disconnect);
}
