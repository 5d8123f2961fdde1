use teleterm::poll::{poll_round, Poll, Round};

#[test]
fn round_decisions() {
    assert_eq!(poll_round(&[Poll::NothingToDo, Poll::Event, Poll::DidWork]), Round::Return);
    assert_eq!(poll_round(&[Poll::NotReady, Poll::DidWork]), Round::Again);
    assert_eq!(poll_round(&[Poll::NothingToDo, Poll::NotReady]), Round::Park);
    assert_eq!(poll_round(&[Poll::NothingToDo, Poll::NothingToDo]), Round::Idle);
    assert_eq!(poll_round(&[]), Round::Idle);
}
