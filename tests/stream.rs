use teleterm::process::CommandEvent;
use teleterm::protocol::{Message, Size};
use teleterm::client::ClientEvent;
use teleterm::stream::{ClientAction, ProcessAction, ServerStep, StreamSession};

fn output(b: &[u8]) -> CommandEvent {
    CommandEvent::Output(b.to_vec())
}

#[test]
fn reconnect_resends_buffer_once() {
    let mut st = StreamSession::new(1024);
    assert_eq!(st.poll_read_client(ClientEvent::Connect), ClientAction::Nothing);
    st.poll_read_process(output(b"X"));
    assert_eq!(st.poll_read_client(ClientEvent::Disconnect), ClientAction::Nothing);
    assert_eq!(st.poll_write_server(), ServerStep::Idle);
    st.poll_read_client(ClientEvent::Connect);
    assert_eq!(st.poll_write_server(), ServerStep::Send(b"X".to_vec()));
    assert_eq!(st.poll_write_server(), ServerStep::Idle);
}

#[test]
fn reconnect_after_send_resends_everything_buffered() {
    let mut st = StreamSession::new(1024);
    st.poll_read_client(ClientEvent::Connect);
    st.poll_read_process(output(b"ab"));
    assert_eq!(st.poll_write_server(), ServerStep::Send(b"ab".to_vec()));
    st.poll_read_process(output(b"c"));
    st.poll_read_client(ClientEvent::Disconnect);
    st.poll_read_client(ClientEvent::Connect);
    assert_eq!(st.poll_write_server(), ServerStep::Send(b"abc".to_vec()));
}

#[test]
fn truncation_moves_both_counters_back() {
    let mut st = StreamSession::new(4);
    st.poll_read_client(ClientEvent::Connect);
    st.record_bytes(b"abc");
    assert_eq!(st.poll_write_terminal(), b"abc");
    st.wrote_terminal(2);
    assert_eq!(st.poll_write_server(), ServerStep::Send(b"abc".to_vec()));
    st.record_bytes(b"de");
    // one byte fell off the front: "bcde" remains
    assert_eq!(st.poll_write_terminal(), b"cde");
    assert_eq!(st.poll_write_server(), ServerStep::Send(b"de".to_vec()));
    st.record_bytes(b"wxyz");
    assert_eq!(st.poll_write_terminal(), b"wxyz");
    assert_eq!(st.poll_write_server(), ServerStep::Send(b"wxyz".to_vec()));
}

#[test]
fn flush_is_needed_after_writes() {
    let mut st = StreamSession::new(16);
    assert!(!st.poll_flush_terminal());
    st.record_bytes(b"hi");
    st.wrote_terminal(0);
    assert!(st.poll_flush_terminal());
    st.flushed_terminal();
    st.wrote_terminal(2);
    assert!(st.poll_flush_terminal());
    st.flushed_terminal();
    assert!(!st.poll_flush_terminal());
    assert_eq!(st.poll_write_terminal(), b"");
}

#[test]
fn session_outlives_child_until_output_is_handed_over() {
    let mut st = StreamSession::new(16);
    assert_eq!(
        st.poll_read_process(CommandEvent::CommandStart("sh".to_string(), vec![])),
        ProcessAction::EnterRawMode
    );
    st.poll_read_process(output(b"bye"));
    st.poll_read_process(CommandEvent::CommandExit(Some(0)));
    assert_eq!(st.poll_write_server(), ServerStep::Idle);
    st.poll_read_client(ClientEvent::Connect);
    assert_eq!(st.poll_write_server(), ServerStep::Send(b"bye".to_vec()));
    assert_eq!(st.poll_write_server(), ServerStep::Finished);
}

#[test]
fn client_events_map_to_actions() {
    let mut st = StreamSession::new(16);
    let sz = Size { rows: 10, cols: 20 };
    assert_eq!(st.poll_read_client(ClientEvent::Start(sz)), ClientAction::ResizePty(sz));
    assert_eq!(st.poll_read_client(ClientEvent::Resize(sz)), ClientAction::ResizePty(sz));
    assert_eq!(
        st.poll_read_client(ClientEvent::ServerMessage(Message::Heartbeat)),
        ClientAction::Reconnect
    );
    assert_eq!(st.poll_read_client(ClientEvent::Failed), ClientAction::Reconnect);
}
