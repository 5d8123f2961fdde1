use teleterm::process::{translate_output, CommandEvent, ProcessState};

#[test]
fn newlines_get_carriage_returns() {
    assert_eq!(translate_output(b"hello\n", false), b"hello\r\n".to_vec());
    assert_eq!(translate_output(b"\n\na", false), b"\r\n\r\na".to_vec());
    assert_eq!(translate_output(b"", false), Vec::<u8>::new());
    assert_eq!(translate_output(b"\r", false), b"\r".to_vec());
}

#[test]
fn start_once_then_outputs_then_exit_once() {
    let mut p = ProcessState::new("bash".to_string(), vec!["-c".to_string()]);
    assert_eq!(
        p.poll_command_start(),
        Some(CommandEvent::CommandStart("bash".to_string(), vec!["-c".to_string()]))
    );
    assert_eq!(p.poll_command_start(), None);
    assert_eq!(p.poll_read_stdout(b"x\n"), Some(CommandEvent::Output(b"x\r\n".to_vec())));
    assert!(!p.is_finished());
    assert_eq!(p.poll_command_exit(Some(3)), Some(CommandEvent::CommandExit(Some(3))));
    assert!(p.is_finished());
    assert_eq!(p.poll_command_exit(Some(3)), None);
    assert_eq!(p.poll_read_stdout(b"late"), None);
}

#[test]
fn keyboard_input_is_queued_in_order() {
    let mut p = ProcessState::new("sh".to_string(), vec![]);
    p.poll_read_stdin(b"ab");
    p.poll_read_stdin(b"cd");
    assert_eq!(p.pending_input(), b"abcd".to_vec());
    p.poll_write_stdin(3);
    assert_eq!(p.pending_input(), b"d".to_vec());
    p.poll_write_stdin(1);
    assert_eq!(p.pending_input(), Vec::<u8>::new());
}

#[test]
fn existing_crlf_is_not_doubled() {
    assert_eq!(translate_output(b"a\r\nb", false), b"a\r\nb".to_vec());
    assert_eq!(translate_output(b"\r\n\n", false), b"\r\n\r\n".to_vec());
    assert_eq!(translate_output(b"\n", true), b"\n".to_vec());
    assert_eq!(translate_output(b"\r\r\n", false), b"\r\r\n".to_vec());
}

#[test]
fn crlf_split_across_chunks_is_not_doubled() {
    let mut p = ProcessState::new("sh".to_string(), vec![]);
    assert_eq!(p.poll_read_stdout(b"x\r"), Some(CommandEvent::Output(b"x\r".to_vec())));
    assert_eq!(p.poll_read_stdout(b""), Some(CommandEvent::Output(vec![])));
    assert_eq!(p.poll_read_stdout(b"\ny\n"), Some(CommandEvent::Output(b"\ny\r\n".to_vec())));
    assert_eq!(p.poll_read_stdout(b"\n"), Some(CommandEvent::Output(b"\r\n".to_vec())));
}
