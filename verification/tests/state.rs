use mediamount_agent::state::{transition, Effect, LogLevel, MountError, MountEvent, MountState};

#[test]
fn test_init_to_mounting() {
    let (state, effects) = transition(MountState::Initializing, MountEvent::Start);
    assert!(matches!(state, MountState::Mounting));
    assert!(effects.contains(&Effect::EnsureSmbSession));
    assert!(effects.contains(&Effect::MapDriveToSmb));
    assert!(effects.contains(&Effect::EmitStateUpdate));
}

#[test]
fn test_mounting_to_mounted() {
    let (state, effects) = transition(MountState::Mounting, MountEvent::RequestStateUpdate);
    assert!(matches!(state, MountState::Mounted));
    assert!(effects.contains(&Effect::UpdateTray));
    assert!(effects.contains(&Effect::EmitStateUpdate));
}

#[test]
fn test_mounting_smb_failed() {
    let (state, _effects) = transition(
        MountState::Mounting,
        MountEvent::SmbMapFailed { reason: "network error".into() },
    );
    assert!(matches!(state, MountState::Error(MountError::SmbFailed { .. })));
}

#[test]
fn test_mounted_restart() {
    let (state, effects) = transition(MountState::Mounted, MountEvent::Restart);
    assert!(matches!(state, MountState::Mounting));
    assert!(effects.contains(&Effect::EnsureSmbSession));
    assert!(effects.contains(&Effect::MapDriveToSmb));
}

#[test]
fn test_mounted_stop() {
    let (state, _) = transition(MountState::Mounted, MountEvent::Stop);
    assert!(matches!(state, MountState::Stopped));
}

#[test]
fn test_error_retry() {
    let (state, _) = transition(
        MountState::Error(MountError::SmbFailed { reason: "test".into() }),
        MountEvent::Start,
    );
    assert!(matches!(state, MountState::Mounting));
}

#[test]
fn test_stopped_start() {
    let (state, _) = transition(MountState::Stopped, MountEvent::Start);
    assert!(matches!(state, MountState::Mounting));
}

#[test]
fn test_global_stop() {
    let states = vec![MountState::Mounting, MountState::Mounted];
    for s in states {
        let (new_state, effects) = transition(s, MountEvent::Stop);
        assert!(matches!(new_state, MountState::Stopped));
        assert!(effects.contains(&Effect::EmitStateUpdate));
    }
}

#[test]
fn test_invalid_event_is_noop() {
    let (state, effects) = transition(MountState::Initializing, MountEvent::Restart);
    assert!(matches!(state, MountState::Initializing));
    assert!(effects.is_empty());
}

#[test]
fn failures_carry_their_reason() {
    let (state, effects) = transition(
        MountState::Mounting,
        MountEvent::DriveMapFailed { reason: "in use".into() },
    );
    assert_eq!(state, MountState::Error(MountError::DriveMapFailed { reason: "in use".into() }));
    assert_eq!(
        effects,
        vec![
            Effect::LogEvent { level: LogLevel::Error, message: "drive map failed: in use".into() },
            Effect::UpdateTray,
            Effect::EmitStateUpdate,
        ]
    );
    assert_eq!(state.to_text(), "Error: drive map failed: in use");
    assert_eq!(state.name(), "error");
    let (_, effects) = transition(
        MountState::Mounting,
        MountEvent::SmbMapFailed { reason: "no route".into() },
    );
    assert_eq!(
        effects[0],
        Effect::LogEvent { level: LogLevel::Error, message: "SMB mount failed: no route".into() }
    );
}

#[test]
fn every_state_stops_and_answers() {
    for s in [
        MountState::Initializing,
        MountState::Mounting,
        MountState::Mounted,
        MountState::Stopped,
        MountState::Error(MountError::ConfigInvalid { reason: "x".into() }),
    ] {
        let (stopped, effects) = transition(s.clone(), MountEvent::Stop);
        assert_eq!(stopped, MountState::Stopped);
        assert_eq!(effects.last(), Some(&Effect::EmitStateUpdate));
        let (same, effects) = transition(s.clone(), MountEvent::ConfigReloaded);
        assert_eq!(same, s);
        assert!(effects.is_empty());
        if s != MountState::Mounting {
            let (same, effects) = transition(s.clone(), MountEvent::RequestStateUpdate);
            assert_eq!(same, s);
            assert_eq!(effects, vec![Effect::EmitStateUpdate]);
        }
    }
    assert_eq!(
        MountError::ConfigInvalid { reason: "x".into() }.to_text(),
        "invalid config: x"
    );
    assert_eq!(MountError::SmbFailed { reason: "y".into() }.to_text(), "SMB failed: y");
    assert_eq!(MountState::Mounted.to_text(), "Mounted");
}
