use local_pool_with_id::executor::{
    run_executor, settle, wake_by_ref, ExecutorAction, ExecutorEvent, WakeAction,
};
use local_pool_with_id::task::IndexWrapper;
use std::task::Poll;

#[test]
fn the_first_waker_unparks() {
    assert_eq!(wake_by_ref(false), WakeAction::Unpark);
    assert_eq!(wake_by_ref(true), WakeAction::Nothing);
}

#[test]
fn a_turn_without_a_result_checks_the_flag() {
    assert!(matches!(run_executor::<u8>(ExecutorEvent::Entered), ExecutorAction::Poll));
    assert!(matches!(
        run_executor(ExecutorEvent::Polled(Poll::Ready(3u8))),
        ExecutorAction::Return(3)
    ));
    assert!(matches!(
        run_executor::<u8>(ExecutorEvent::Polled(Poll::Pending)),
        ExecutorAction::TakeFlag
    ));
    assert!(matches!(run_executor::<u8>(ExecutorEvent::FlagTaken(true)), ExecutorAction::Poll));
    assert!(matches!(run_executor::<u8>(ExecutorEvent::FlagTaken(false)), ExecutorAction::Park));
    assert!(matches!(run_executor::<u8>(ExecutorEvent::Unparked), ExecutorAction::ClearFlag));
    assert!(matches!(run_executor::<u8>(ExecutorEvent::FlagCleared), ExecutorAction::Poll));
}

#[test]
fn a_wakeup_during_a_turn_brings_another_turn() {
    let mut flag = false;
    let mut unparked = 0;
    for _ in 0..2 {
        let was = std::mem::replace(&mut flag, true);
        if wake_by_ref(was) == WakeAction::Unpark {
            unparked += 1;
        }
    }
    assert_eq!(unparked, 1);
    assert!(matches!(
        run_executor::<u8>(ExecutorEvent::Polled(Poll::Pending)),
        ExecutorAction::TakeFlag
    ));
    let was = std::mem::replace(&mut flag, false);
    assert!(matches!(run_executor::<u8>(ExecutorEvent::FlagTaken(was)), ExecutorAction::Poll));
    let was = std::mem::replace(&mut flag, false);
    assert!(matches!(run_executor::<u8>(ExecutorEvent::FlagTaken(was)), ExecutorAction::Park));
}

#[test]
fn an_output_keeps_the_identifier() {
    match IndexWrapper::tag(4, Poll::Ready('x')) {
        Poll::Ready(done) => assert_eq!((done.index, done.data), (4, 'x')),
        Poll::Pending => panic!("the poll was ready"),
    }
    assert!(IndexWrapper::<char>::tag(4, Poll::Pending).is_pending());
}

#[test]
fn a_turn_is_settled_by_the_flag() {
    assert_eq!(settle(Poll::Ready(1), 2, false), Poll::Ready(1));
    assert_eq!(settle(Poll::Ready(1), 2, true), Poll::Ready(1));
    assert_eq!(settle(Poll::Pending, 2, false), Poll::Ready(2));
    assert_eq!(settle(Poll::Pending, 2, true), Poll::Pending);
}
