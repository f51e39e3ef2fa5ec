//! The idle state of the consensus state machine: a validator waits here
//! until it is registered for an epoch. The decisions are a transition
//! function from a phase and an input to the next phase and an action; the
//! caller performs each action (querying the epoch manager, waiting on its
//! event stream) and hands back what came of it.
use vstd::prelude::*;

use std::marker::PhantomData;

use crate::common::Epoch;

verus! {

/// An event published by the epoch manager.
#[derive(Debug, Clone, Copy, PartialEq, Eq, Structural)]
pub enum EpochManagerEvent {
    /// A new epoch has started.
    EpochChanged(Epoch),
    /// This validator has been registered.
    ThisValidatorIsRegistered { epoch: Epoch },
}

/// The event with which the idle state hands over to the next state.
#[derive(Debug, Clone, Copy, PartialEq, Eq, Structural)]
pub enum ConsensusStateEvent {
    /// This validator is registered for `epoch` and can take part in
    /// consensus.
    RegisteredForEpoch { epoch: Epoch },
    /// The epoch manager has gone away; the state machine shuts down.
    Shutdown,
}

/// An error from the epoch manager, reported by the consensus state
/// machine.
#[derive(Debug, Clone)]
pub enum HotStuffError {
    EpochManagerError { details: String },
}

/// Where the idle state is in its work.
#[derive(Debug, Clone, Copy, PartialEq, Eq, Structural)]
pub enum IdlePhase {
    /// Waiting for the current epoch.
    AwaitingCurrentEpoch,
    /// Waiting to learn whether this validator is registered for `epoch`.
    CheckingRegistration { epoch: Epoch },
    /// Waiting for an epoch manager event.
    Listening,
    /// The idle state has finished.
    Done,
}

/// What the caller reports back after performing an action.
#[derive(Debug)]
pub enum IdleInput {
    /// The current epoch, or the error from asking for it.
    CurrentEpoch(Result<Epoch, HotStuffError>),
    /// Whether this validator is registered for the epoch asked about, or
    /// the error from asking.
    RegistrationChecked(Result<bool, HotStuffError>),
    /// An event from the epoch manager.
    EpochEvent(EpochManagerEvent),
    /// The event stream dropped events because the idle state fell behind.
    EventStreamLagged,
    /// The event stream has closed.
    EventStreamClosed,
    /// A consensus message arrived and was discarded, as they are while
    /// idle.
    HotstuffMessageDiscarded,
}

/// What the caller is to do next.
#[derive(Debug)]
pub enum IdleAction {
    /// Ask the epoch manager for the current epoch.
    FetchCurrentEpoch,
    /// Ask the epoch manager whether this validator is registered for
    /// `epoch`.
    CheckRegistration { epoch: Epoch },
    /// Wait for the next epoch manager event, discarding consensus
    /// messages meanwhile.
    AwaitEvent,
    /// Leave the idle state with this outcome.
    Finish(Result<ConsensusStateEvent, HotStuffError>),
}

/// Whether `input` answers the action issued in `phase`.
pub open spec fn input_fits(phase: IdlePhase, input: IdleInput) -> bool {
    match phase {
        IdlePhase::AwaitingCurrentEpoch => input is CurrentEpoch,
        IdlePhase::CheckingRegistration { .. } => input is RegistrationChecked,
        IdlePhase::Listening => !(input is CurrentEpoch) && !(input is RegistrationChecked),
        IdlePhase::Done => false,
    }
}

/// The transition of the idle state from `phase` on `input`. After the
/// current epoch is known, registration for it is checked; a validator
/// registered for the epoch checked finishes with that epoch, otherwise it
/// listens. While listening, a change of epoch leads to a registration
/// check for the new epoch; a closed stream shuts down; anything else keeps
/// it listening. Errors from the epoch manager end the idle state with that
/// error.
pub open spec fn idle_step(phase: IdlePhase, input: IdleInput) -> (IdlePhase, IdleAction) {
    match (phase, input) {
        (IdlePhase::AwaitingCurrentEpoch, IdleInput::CurrentEpoch(Ok(epoch))) => (
            IdlePhase::CheckingRegistration { epoch },
            IdleAction::CheckRegistration { epoch },
        ),
        (IdlePhase::CheckingRegistration { epoch }, IdleInput::RegistrationChecked(Ok(true))) => (
            IdlePhase::Done,
            IdleAction::Finish(Ok(ConsensusStateEvent::RegisteredForEpoch { epoch })),
        ),
        (IdlePhase::CheckingRegistration { .. }, IdleInput::RegistrationChecked(Ok(false))) => (
            IdlePhase::Listening,
            IdleAction::AwaitEvent,
        ),
        (_, IdleInput::CurrentEpoch(Err(e))) => (IdlePhase::Done, IdleAction::Finish(Err(e))),
        (_, IdleInput::RegistrationChecked(Err(e))) => (
            IdlePhase::Done,
            IdleAction::Finish(Err(e)),
        ),
        (_, IdleInput::EpochEvent(EpochManagerEvent::EpochChanged(epoch))) => (
            IdlePhase::CheckingRegistration { epoch },
            IdleAction::CheckRegistration { epoch },
        ),
        (_, IdleInput::EventStreamClosed) => (
            IdlePhase::Done,
            IdleAction::Finish(Ok(ConsensusStateEvent::Shutdown)),
        ),
        _ => (IdlePhase::Listening, IdleAction::AwaitEvent),
    }
}

/// The idle state of the consensus state machine.
#[derive(Debug)]
pub struct IdleState<TSpec>(PhantomData<TSpec>);

impl<TSpec> Clone for IdleState<TSpec> {
    fn clone(&self) -> Self {
        IdleState(PhantomData)
    }
}

impl<TSpec> IdleState<TSpec> {
    /// The one value of the idle state: it holds no data.
    pub closed spec fn the_state() -> Self {
        IdleState(PhantomData)
    }

    /// The idle state.
    pub fn new() -> (r: Self)
        ensures
            r == Self::the_state(),
    {
        IdleState(PhantomData)
    }

    /// Entering the idle state: the first thing to learn is the current
    /// epoch.
    pub fn on_enter(&self) -> (r: (IdlePhase, IdleAction))
        ensures
            r.0 == IdlePhase::AwaitingCurrentEpoch,
            r.1 is FetchCurrentEpoch,
    {
        (IdlePhase::AwaitingCurrentEpoch, IdleAction::FetchCurrentEpoch)
    }

    /// The next phase and action after `input` arrived in `phase`.
    pub fn step(&self, phase: IdlePhase, input: IdleInput) -> (r: (IdlePhase, IdleAction))
        requires
            input_fits(phase, input),
        ensures
            r == idle_step(phase, input),
    {
        match input {
            IdleInput::CurrentEpoch(Ok(epoch)) => (
                IdlePhase::CheckingRegistration { epoch },
                IdleAction::CheckRegistration { epoch },
            ),
            IdleInput::CurrentEpoch(Err(e)) => (IdlePhase::Done, IdleAction::Finish(Err(e))),
            IdleInput::RegistrationChecked(Ok(is_registered)) => {
                match phase {
                    IdlePhase::CheckingRegistration { epoch } => {
                        if is_registered {
                            (
                                IdlePhase::Done,
                                IdleAction::Finish(
                                    Ok(ConsensusStateEvent::RegisteredForEpoch { epoch }),
                                ),
                            )
                        } else {
                            (IdlePhase::Listening, IdleAction::AwaitEvent)
                        }
                    },
                    _ => (IdlePhase::Listening, IdleAction::AwaitEvent),
                }
            },
            IdleInput::RegistrationChecked(Err(e)) => (
                IdlePhase::Done,
                IdleAction::Finish(Err(e)),
            ),
            IdleInput::EpochEvent(event) => self.on_epoch_event(event),
            IdleInput::EventStreamLagged => (IdlePhase::Listening, IdleAction::AwaitEvent),
            IdleInput::EventStreamClosed => (
                IdlePhase::Done,
                IdleAction::Finish(Ok(ConsensusStateEvent::Shutdown)),
            ),
            IdleInput::HotstuffMessageDiscarded => (IdlePhase::Listening, IdleAction::AwaitEvent),
        }
    }

    /// The reaction to an epoch manager event: a change of epoch leads to a
    /// registration check for the new epoch; the registration event itself
    /// changes nothing.
    pub fn on_epoch_event(&self, event: EpochManagerEvent) -> (r: (IdlePhase, IdleAction))
        ensures
            r == idle_step(IdlePhase::Listening, IdleInput::EpochEvent(event)),
    {
        match event {
            EpochManagerEvent::EpochChanged(epoch) => (
                IdlePhase::CheckingRegistration { epoch },
                IdleAction::CheckRegistration { epoch },
            ),
            EpochManagerEvent::ThisValidatorIsRegistered { .. } => (
                IdlePhase::Listening,
                IdleAction::AwaitEvent,
            ),
        }
    }
}

/// The idle state hands over as registered for an epoch only right after
/// the epoch manager reported this validator registered for that very
/// epoch.
pub proof fn lemma_registered_only_when_confirmed(phase: IdlePhase, input: IdleInput, epoch: Epoch)
    requires
        input_fits(phase, input),
        idle_step(phase, input).1 == IdleAction::Finish(
            Ok(ConsensusStateEvent::RegisteredForEpoch { epoch }),
        ),
    ensures
        phase == (IdlePhase::CheckingRegistration { epoch }),
        input == IdleInput::RegistrationChecked(Ok(true)),
{
}

/// The idle state finishes exactly when its action is to finish, and every
/// other action leaves it in a phase that expects an answer.
pub proof fn lemma_done_iff_finish(phase: IdlePhase, input: IdleInput)
    requires
        input_fits(phase, input),
    ensures
        (idle_step(phase, input).0 == IdlePhase::Done) <==> (idle_step(phase, input).1 is Finish),
        idle_step(phase, input).1 is FetchCurrentEpoch ==> false,
        idle_step(phase, input).1 matches IdleAction::CheckRegistration { epoch }
            ==> idle_step(phase, input).0 == (IdlePhase::CheckingRegistration { epoch }),
        idle_step(phase, input).1 is AwaitEvent ==> idle_step(phase, input).0
            == IdlePhase::Listening,
{
}

/// While listening, the idle state shuts down exactly when the event
/// stream closes.
pub proof fn lemma_shutdown_iff_closed(input: IdleInput)
    requires
        input_fits(IdlePhase::Listening, input),
    ensures
        (idle_step(IdlePhase::Listening, input).1 == IdleAction::Finish(
            Ok(ConsensusStateEvent::Shutdown),
        )) <==> input is EventStreamClosed,
{
}

} // verus!
