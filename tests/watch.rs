use teleterm::list;
use teleterm::client::ClientEvent;
use teleterm::protocol::{Message, Session, Size};
use teleterm::watch::{format_time, SortedSessions, WatchAction, WatchError, WatchSession};

#[test]
fn format_time_values() {
    assert_eq!(format_time(0), "0s");
    assert_eq!(format_time(59), "59s");
    assert_eq!(format_time(60), "1m0s");
    assert_eq!(format_time(3599), "59m59s");
    assert_eq!(format_time(3600), "1h0m0s");
    assert_eq!(format_time(3723), "1h2m3s");
    assert_eq!(format_time(86400), "1d0h0m0s");
    assert_eq!(format_time(90061), "1d1h1m1s");
    assert_eq!(format_time(u32::MAX), "49710d6h28m15s");
}

#[test]
fn padded_format_time_values() {
    assert_eq!(list::format_time(5), "5s");
    assert_eq!(list::format_time(65), "1m05s");
    assert_eq!(list::format_time(3723), "1h02m03s");
    assert_eq!(list::format_time(86405), "1d00h00m05s");
    assert_eq!(list::format_time(36610), "10h10m10s");
}

fn sess(id: &str, user: &str, idle: u32) -> Session {
    Session {
        id: id.to_string(),
        username: user.to_string(),
        term_type: "xterm".to_string(),
        size: Size { rows: 24, cols: 80 },
        idle_time: idle,
        title: String::new(),
        watchers: 0,
    }
}

#[test]
fn sessions_are_grouped_and_ordered_by_activity() {
    let sorted = SortedSessions::new(vec![
        sess("b1", "bob", 50),
        sess("a1", "alice", 30),
        sess("b2", "bob", 5),
        sess("a2", "alice", 10),
        sess("c1", "carol", 5),
    ]);
    let got: Vec<(u32, String)> =
        (0..sorted.len()).map(|n| {
            let (k, s) = sorted.entry(n);
            (k, s.id.clone())
        }).collect();
    assert_eq!(
        got,
        vec![
            ('a' as u32, "b2".to_string()),
            ('b' as u32, "b1".to_string()),
            ('c' as u32, "c1".to_string()),
            ('d' as u32, "a2".to_string()),
            ('e' as u32, "a1".to_string()),
        ]
    );
    assert_eq!(sorted.id_for('a'), Some("b2"));
    assert_eq!(sorted.id_for('e'), Some("a1"));
    assert_eq!(sorted.id_for('f'), None);
}

#[test]
fn keys_skip_q() {
    let list: Vec<Session> = (0..18).map(|i| sess(&format!("s{}", i), "u", i)).collect();
    let sorted = SortedSessions::new(list);
    assert_eq!(sorted.id_for('p'), Some("s15"));
    assert_eq!(sorted.id_for('q'), None);
    assert_eq!(sorted.id_for('r'), Some("s16"));
    assert_eq!(sorted.id_for('s'), Some("s17"));
}

#[test]
fn empty_session_list() {
    let sorted = SortedSessions::new(vec![]);
    assert_eq!(sorted.len(), 0);
    assert_eq!(sorted.id_for('a'), None);
}

#[test]
fn watch_menu_flow() {
    let mut w = WatchSession::new();
    assert_eq!(w.poll_input('a'), WatchAction::Nothing);
    assert_eq!(w.poll_list_client(ClientEvent::Connect), Ok(WatchAction::ListSessions));
    let list = Message::Sessions { sessions: vec![sess("s1", "u", 3), sess("s2", "v", 1)] };
    assert_eq!(
        w.poll_list_client(ClientEvent::ServerMessage(list)),
        Ok(WatchAction::ShowSessions)
    );
    assert_eq!(w.poll_input(' '), WatchAction::ListSessions);
    assert_eq!(w.poll_input('z'), WatchAction::Nothing);
    assert_eq!(w.poll_watch_client(ClientEvent::ServerMessage(Message::Disconnected)), Ok(WatchAction::Nothing));
    assert_eq!(w.poll_input('a'), WatchAction::Watch("s2".to_string()));
    assert_eq!(
        w.poll_watch_client(ClientEvent::ServerMessage(Message::TerminalOutput { data: b"hi".to_vec() })),
        Ok(WatchAction::Output(b"hi".to_vec()))
    );
    assert_eq!(
        w.poll_watch_client(ClientEvent::ServerMessage(Message::Heartbeat)),
        Err(WatchError::UnexpectedMessage)
    );
    assert_eq!(
        w.poll_watch_client(ClientEvent::ServerMessage(Message::Error { msg: "bad".to_string() })),
        Ok(WatchAction::ServerError("bad".to_string()))
    );
    assert_eq!(w.poll_watch_client(ClientEvent::ServerMessage(Message::Disconnected)), Ok(WatchAction::Quit));
    assert_eq!(w.poll_input('q'), WatchAction::ListSessions);
    assert_eq!(
        w.poll_list_client(ClientEvent::ServerMessage(Message::Heartbeat)),
        Err(WatchError::UnexpectedMessage)
    );
    assert_eq!(w.poll_input('q'), WatchAction::Nothing);
}

#[test]
fn quit_from_the_list() {
    let mut w = WatchSession::new();
    w.poll_list_client(ClientEvent::ServerMessage(Message::Sessions { sessions: vec![] })).unwrap();
    assert_eq!(w.poll_input('q'), WatchAction::Quit);
}
