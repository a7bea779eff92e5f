//! When the executor's thread polls, when it parks, and why no wake-up is missed.
//!
//! The thread and its wakers share a flag, which a waker sets and the thread takes. Parking and
//! unparking, and the operations on the flag, are up to the caller; what to do next is decided
//! here.
use std::task::Poll;
use vstd::prelude::*;

verus! {

/// What a waker does once it has set the flag.
#[derive(Clone, Copy, Debug, PartialEq, Eq, Structural)]
pub enum WakeAction {
    /// Unpark the executor's thread.
    Unpark,
    /// Nothing: another waker has seen to it.
    Nothing,
}

/// What a waker does that found the flag to be `unparked` when it set it.
pub open spec fn wake_action(unparked: bool) -> WakeAction {
    if unparked {
        WakeAction::Nothing
    } else {
        WakeAction::Unpark
    }
}

/// Decides what a waker does that found the flag to be `unparked` when it set it.
///
/// If the thread has not been unparked yet, it must be done now. If it was actually parked, it will
/// run again. Otherwise the token that unparking makes available may be consumed before the thread
/// parks, but the flag ensures that the wake-up is not forgotten.
pub fn wake_by_ref(unparked: bool) -> (action: WakeAction)
    ensures
        action == wake_action(unparked),
        action is Unpark <==> !unparked,
{
    if !unparked {
        WakeAction::Unpark
    } else {
        WakeAction::Nothing
    }
}

/// What has happened last on the executor's thread.
#[verifier::reject_recursive_types(T)]
pub enum ExecutorEvent<T> {
    /// The executor has been entered.
    Entered,
    /// A turn has been taken, with this outcome.
    Polled(Poll<T>),
    /// The flag has been taken: it is down now, and this is what it was.
    FlagTaken(bool),
    /// The thread has been parked, and runs again.
    Unparked,
    /// The flag has been put down.
    FlagCleared,
}

/// What the executor's thread does next.
pub enum ExecutorAction<T> {
    /// Take a turn.
    Poll,
    /// Take the flag.
    TakeFlag,
    /// Park.
    Park,
    /// Put the flag down.
    ClearFlag,
    /// Leave the executor with this result.
    Return(T),
}

/// What the executor's thread does after `event`.
pub open spec fn next_action<T>(event: ExecutorEvent<T>) -> ExecutorAction<T> {
    match event {
        ExecutorEvent::Polled(Poll::Ready(result)) => ExecutorAction::Return(result),
        ExecutorEvent::Polled(Poll::Pending) => ExecutorAction::TakeFlag,
        ExecutorEvent::FlagTaken(false) => ExecutorAction::Park,
        ExecutorEvent::Unparked => ExecutorAction::ClearFlag,
        _ => ExecutorAction::Poll,
    }
}

/// Decides what the executor's thread does after `event`.
pub fn run_executor<T>(event: ExecutorEvent<T>) -> (action: ExecutorAction<T>)
    ensures
        action == next_action(event),
        match event {
            ExecutorEvent::Entered => action is Poll,
            ExecutorEvent::Polled(Poll::Ready(result)) => action == ExecutorAction::Return(result),
            ExecutorEvent::Polled(Poll::Pending) => action is TakeFlag,
            ExecutorEvent::FlagTaken(unparked) => if unparked {
                action is Poll
            } else {
                action is Park
            },
            ExecutorEvent::Unparked => action is ClearFlag,
            ExecutorEvent::FlagCleared => action is Poll,
        },
{
    match event {
        ExecutorEvent::Entered => ExecutorAction::Poll,
        ExecutorEvent::Polled(polled) => match polled {
            Poll::Ready(result) => ExecutorAction::Return(result),
            // Consume the wake-up that occurred during the turn, if any.
            Poll::Pending => ExecutorAction::TakeFlag,
        },
        ExecutorEvent::FlagTaken(unparked) => if unparked {
            ExecutorAction::Poll
        } else {
            // No wake-up occurred. It may occur now, right before parking, but in that case the
            // token that unparking makes available is still there, and parking returns at once.
            ExecutorAction::Park
        },
        // The flag has been set. It is put down before the next turn to avoid a turn too many.
        ExecutorEvent::Unparked => ExecutorAction::ClearFlag,
        ExecutorEvent::FlagCleared => ExecutorAction::Poll,
    }
}

/// What a turn comes to for one who does not wait for wake-ups: `polled`, unless it brought nothing
/// and no wake-up has been asked for. Then no more progress can be made, and `stalled` is the result.
pub open spec fn settled<T>(polled: Poll<T>, stalled: T, woken: bool) -> Poll<T> {
    match polled {
        Poll::Ready(result) => Poll::Ready(result),
        Poll::Pending => if woken {
            Poll::Pending
        } else {
            Poll::Ready(stalled)
        },
    }
}

/// Decides what a turn comes to for one who does not wait for wake-ups, where `woken` is what the flag
/// was at the end of the turn.
pub fn settle<T>(polled: Poll<T>, stalled: T, woken: bool) -> (result: Poll<T>)
    ensures
        result == settled(polled, stalled, woken),
        polled is Ready ==> result == polled,
        polled is Pending && woken ==> result is Pending,
        polled is Pending && !woken ==> result == Poll::Ready(stalled),
{
    match polled {
        Poll::Ready(result) => Poll::Ready(result),
        // More progress can be made: the turn left someone awake.
        Poll::Pending => if woken {
            Poll::Pending
        } else {
            Poll::Ready(stalled)
        },
    }
}

/// Where the executor's thread is.
pub enum Stage {
    /// In a turn.
    Polling,
    /// After a turn without a result, about to take the flag.
    Checking,
    /// About to park, or parked.
    Parking,
    /// Unparked, about to put the flag down.
    Clearing,
    /// Out of the executor.
    Left,
}

/// What the thread and its wakers share.
pub struct Wakeups {
    /// Where the thread is.
    pub stage: Stage,
    /// The flag.
    pub flag: bool,
    /// Whether the next attempt to park returns at once.
    pub token: bool,
    /// How many wakers have still to unpark the thread.
    pub unparks: nat,
    /// Whether a wake-up has been asked for since the last turn began.
    pub asked: bool,
}

/// Something that the thread or a waker does.
pub enum Step {
    /// A waker sets the flag.
    Wake,
    /// A waker that has set the flag unparks the thread.
    Unpark,
    /// Code that runs in a turn parks, and so consumes the token.
    Consume,
    /// A turn ends: with a result, or without.
    Polled(bool),
    /// A turn ends that brought nothing, for one who does not wait for wake-ups.
    Settled,
    /// The thread takes the flag.
    TakeFlag,
    /// The thread comes back from parking. It may do so for no reason.
    ParkReturns,
    /// The thread puts the flag down.
    ClearFlag,
}

/// Where the thread is once it has set about `action`.
pub open spec fn stage_of(action: ExecutorAction<()>) -> Stage {
    match action {
        ExecutorAction::Poll => Stage::Polling,
        ExecutorAction::TakeFlag => Stage::Checking,
        ExecutorAction::Park => Stage::Parking,
        ExecutorAction::ClearFlag => Stage::Clearing,
        ExecutorAction::Return(_) => Stage::Left,
    }
}

impl Wakeups {
    /// The first turn of an executor begins. What was left of an earlier one is still there.
    pub open spec fn entered(flag: bool, token: bool, unparks: nat) -> Wakeups {
        Wakeups {
            stage: stage_of(next_action(ExecutorEvent::Entered)),
            flag,
            token,
            unparks,
            asked: false,
        }
    }

    /// The first turn of an executor begins.
    pub open spec fn enters(self) -> bool {
        self == Wakeups::entered(self.flag, self.token, self.unparks)
    }

    /// The thread goes on as the executor decides after `event`.
    pub open spec fn proceeds(self, event: ExecutorEvent<()>) -> Wakeups {
        let stage = stage_of(next_action(event));
        Wakeups { stage, asked: self.asked && !(stage is Polling), ..self }
    }

    /// What comes of `step`. A step that does not apply changes nothing.
    pub open spec fn after(self, step: Step) -> Wakeups {
        match step {
            Step::Wake => Wakeups {
                flag: true,
                unparks: self.unparks + (if wake_action(self.flag) is Unpark {
                    1nat
                } else {
                    0nat
                }),
                asked: true,
                ..self
            },
            Step::Unpark => if self.unparks > 0 {
                Wakeups { unparks: (self.unparks - 1) as nat, token: true, ..self }
            } else {
                self
            },
            Step::Consume => if self.stage is Polling {
                Wakeups { token: false, ..self }
            } else {
                self
            },
            Step::Polled(ready) => if self.stage is Polling {
                self.proceeds(
                    ExecutorEvent::Polled(
                        if ready {
                            Poll::Ready(())
                        } else {
                            Poll::Pending
                        },
                    ),
                )
            } else {
                self
            },
            Step::Settled => if self.stage is Polling {
                self.proceeds(ExecutorEvent::Polled(settled(Poll::Pending, (), self.flag)))
            } else {
                self
            },
            Step::TakeFlag => if self.stage is Checking {
                (Wakeups { flag: false, ..self }).proceeds(ExecutorEvent::FlagTaken(self.flag))
            } else {
                self
            },
            Step::ParkReturns => if self.stage is Parking {
                (Wakeups { token: false, ..self }).proceeds(ExecutorEvent::Unparked)
            } else {
                self
            },
            Step::ClearFlag => if self.stage is Clearing {
                (Wakeups { flag: false, ..self }).proceeds(ExecutorEvent::FlagCleared)
            } else {
                self
            },
        }
    }

    /// What comes of `steps`, one after the other.
    pub open spec fn after_all(self, steps: Seq<Step>) -> Wakeups
        decreases steps.len(),
    {
        if steps.len() == 0 {
            self
        } else {
            self.after_all(steps.drop_last()).after(steps.last())
        }
    }

    /// A wake-up that has been asked for since the last turn began is noticed: as long as the
    /// thread has not taken the flag, the flag is up; and a thread that parks comes back, because
    /// the token is there or a waker is about to make it available.
    pub open spec fn noticed(self) -> bool {
        self.asked ==> match self.stage {
            Stage::Polling | Stage::Checking => self.flag,
            Stage::Parking => self.flag && (self.token || self.unparks > 0),
            Stage::Clearing | Stage::Left => true,
        }
    }
}

/// Where the thread parks, the flag went down after the last turn began: it is up again only if a
/// wake-up has been asked for.
proof fn lemma_noticed(flag: bool, token: bool, unparks: nat, steps: Seq<Step>)
    ensures
        ({
            let wakeups = Wakeups::entered(flag, token, unparks).after_all(steps);
            &&& wakeups.noticed()
            &&& wakeups.stage is Parking && wakeups.flag ==> wakeups.asked
        }),
    decreases steps.len(),
{
    if steps.len() > 0 {
        lemma_noticed(flag, token, unparks, steps.drop_last());
    }
}

/// No wake-up is forgotten: whatever the thread and its wakers do, in whatever order, a wake-up that
/// was asked for since the last turn began has the thread take another turn, even where code that
/// runs in a turn parks and so consumes the token.
pub proof fn no_wakeup_is_lost(flag: bool, token: bool, unparks: nat, steps: Seq<Step>)
    ensures
        Wakeups::entered(flag, token, unparks).after_all(steps).noticed(),
{
    lemma_noticed(flag, token, unparks, steps);
}

/// A thread that has been asked for since the last turn began does not park when it takes the flag:
/// it takes another turn.
pub proof fn asked_means_another_turn(flag: bool, token: bool, unparks: nat, steps: Seq<Step>)
    ensures
        ({
            let wakeups = Wakeups::entered(flag, token, unparks).after_all(steps);
            wakeups.stage is Checking && wakeups.asked ==> wakeups.after(
                Step::TakeFlag,
            ).stage is Polling
        }),
{
    lemma_noticed(flag, token, unparks, steps);
}

/// Where the thread parks, the flag is up only if a wake-up has been asked for since the last turn
/// began.
pub proof fn flag_means_asked(flag: bool, token: bool, unparks: nat, steps: Seq<Step>)
    ensures
        ({
            let wakeups = Wakeups::entered(flag, token, unparks).after_all(steps);
            wakeups.stage is Parking && wakeups.flag ==> wakeups.asked
        }),
{
    lemma_noticed(flag, token, unparks, steps);
}

/// One who does not wait for wake-ups stops only where there are none to come up for: a turn that
/// brought nothing is the last only if no wake-up has been asked for since it began.
pub proof fn stalled_means_not_asked(flag: bool, token: bool, unparks: nat, steps: Seq<Step>)
    ensures
        ({
            let wakeups = Wakeups::entered(flag, token, unparks).after_all(steps);
            wakeups.stage is Polling && wakeups.after(Step::Settled).stage is Left
                ==> !wakeups.asked
        }),
{
    lemma_noticed(flag, token, unparks, steps);
}

/// One who does not wait for wake-ups never parks: where every turn that brought nothing is settled,
/// the thread polls, is about to take the flag, which is up, or has left.
pub proof fn settling_never_parks(flag: bool, token: bool, unparks: nat, steps: Seq<Step>)
    requires
        !steps.contains(Step::Polled(false)),
    ensures
        match Wakeups::entered(flag, token, unparks).after_all(steps).stage {
            Stage::Polling | Stage::Left => true,
            Stage::Checking => Wakeups::entered(flag, token, unparks).after_all(steps).flag,
            Stage::Parking | Stage::Clearing => false,
        },
    decreases steps.len(),
{
    if steps.len() > 0 {
        let earlier = steps.drop_last();
        assert forall|i: int| 0 <= i < earlier.len() implies earlier[i] != Step::Polled(false) by {
            assert(steps[i] == earlier[i]);
        }
        settling_never_parks(flag, token, unparks, earlier);
        assert(steps.contains(steps.last()));
    }
}

/// The executor is left when a turn brings a result, only then, and with that result.
pub proof fn results_are_returned<T>(event: ExecutorEvent<T>, action: ExecutorAction<T>, result: T)
    requires
        call_ensures(run_executor::<T>, (event,), action),
    ensures
        action == ExecutorAction::Return(result) <==> event == ExecutorEvent::Polled(
            Poll::Ready(result),
        ),
{
}

/// The thread parks only when it has taken the flag and the flag was down.
pub proof fn only_a_flag_that_is_down_parks<T>(event: ExecutorEvent<T>, action: ExecutorAction<T>)
    requires
        call_ensures(run_executor::<T>, (event,), action),
    ensures
        action is Park <==> event == ExecutorEvent::<T>::FlagTaken(false),
{
}

/// A result of a turn is kept, and one who does not wait for wake-ups goes on only where one has been
/// asked for.
pub proof fn settling_keeps_results<T>(
    polled: Poll<T>,
    stalled: T,
    woken: bool,
    result: Poll<T>,
)
    requires
        call_ensures(settle::<T>, (polled, stalled, woken), result),
    ensures
        polled is Ready ==> result == polled,
        result is Pending <==> polled is Pending && woken,
        result is Ready && polled is Pending ==> result == Poll::Ready(stalled),
{
}

} // verus!
