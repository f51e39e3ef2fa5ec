use tari_dan_models::common::Epoch;
use tari_dan_models::idle::{
    ConsensusStateEvent, EpochManagerEvent, HotStuffError, IdleAction, IdleInput, IdlePhase,
    IdleState,
};

fn idle() -> IdleState<()> {
    IdleState::new()
}

#[test]
fn enter_asks_for_current_epoch() {
    let (phase, action) = idle().on_enter();
    assert_eq!(phase, IdlePhase::AwaitingCurrentEpoch);
    assert!(matches!(action, IdleAction::FetchCurrentEpoch));
}

#[test]
fn registered_in_current_epoch_finishes_at_once() {
    let s = idle();
    let (phase, action) = s.step(IdlePhase::AwaitingCurrentEpoch, IdleInput::CurrentEpoch(Ok(Epoch(3))));
    assert_eq!(phase, IdlePhase::CheckingRegistration { epoch: Epoch(3) });
    assert!(matches!(action, IdleAction::CheckRegistration { epoch: Epoch(3) }));
    let (phase, action) = s.step(phase, IdleInput::RegistrationChecked(Ok(true)));
    assert_eq!(phase, IdlePhase::Done);
    assert!(matches!(
        action,
        IdleAction::Finish(Ok(ConsensusStateEvent::RegisteredForEpoch { epoch: Epoch(3) }))
    ));
}

#[test]
fn unregistered_waits_for_epoch_change() {
    let s = idle();
    let (phase, _) = s.step(IdlePhase::CheckingRegistration { epoch: Epoch(3) }, IdleInput::RegistrationChecked(Ok(false)));
    assert_eq!(phase, IdlePhase::Listening);
    let (phase, action) = s.step(phase, IdleInput::EventStreamLagged);
    assert_eq!(phase, IdlePhase::Listening);
    assert!(matches!(action, IdleAction::AwaitEvent));
    let (phase, _) = s.step(phase, IdleInput::HotstuffMessageDiscarded);
    assert_eq!(phase, IdlePhase::Listening);
    let (phase, _) = s.step(phase, IdleInput::EpochEvent(EpochManagerEvent::ThisValidatorIsRegistered { epoch: Epoch(4) }));
    assert_eq!(phase, IdlePhase::Listening);
    let (phase, action) = s.step(phase, IdleInput::EpochEvent(EpochManagerEvent::EpochChanged(Epoch(4))));
    assert_eq!(phase, IdlePhase::CheckingRegistration { epoch: Epoch(4) });
    assert!(matches!(action, IdleAction::CheckRegistration { epoch: Epoch(4) }));
    let (phase, action) = s.step(phase, IdleInput::RegistrationChecked(Ok(true)));
    assert_eq!(phase, IdlePhase::Done);
    assert!(matches!(
        action,
        IdleAction::Finish(Ok(ConsensusStateEvent::RegisteredForEpoch { epoch: Epoch(4) }))
    ));
}

#[test]
fn closed_stream_shuts_down() {
    let (phase, action) = idle().step(IdlePhase::Listening, IdleInput::EventStreamClosed);
    assert_eq!(phase, IdlePhase::Done);
    assert!(matches!(action, IdleAction::Finish(Ok(ConsensusStateEvent::Shutdown))));
}

#[test]
fn epoch_manager_errors_end_idle_state() {
    let err = HotStuffError::EpochManagerError { details: "gone".to_string() };
    let (phase, action) = idle().step(IdlePhase::AwaitingCurrentEpoch, IdleInput::CurrentEpoch(Err(err)));
    assert_eq!(phase, IdlePhase::Done);
    assert!(matches!(action, IdleAction::Finish(Err(HotStuffError::EpochManagerError { .. }))));
    let err = HotStuffError::EpochManagerError { details: "gone".to_string() };
    let (phase, action) = idle().step(IdlePhase::CheckingRegistration { epoch: Epoch(1) }, IdleInput::RegistrationChecked(Err(err)));
    assert_eq!(phase, IdlePhase::Done);
    assert!(matches!(action, IdleAction::Finish(Err(_))));
}

#[test]
fn epoch_event_reaction() {
    let (phase, _) = idle().on_epoch_event(EpochManagerEvent::EpochChanged(Epoch(9)));
    assert_eq!(phase, IdlePhase::CheckingRegistration { epoch: Epoch(9) });
    let (phase, action) = idle().on_epoch_event(EpochManagerEvent::ThisValidatorIsRegistered { epoch: Epoch(9) });
    assert_eq!(phase, IdlePhase::Listening);
    assert!(matches!(action, IdleAction::AwaitEvent));
}
