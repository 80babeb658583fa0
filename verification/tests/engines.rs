use indicator_engine::config::{ConfigurationError, EngineConfig};
use indicator_engine::engine::{
    disposition, Disposition, Engine, EngineAction, EngineEvent, EngineMode, EngineState, Fault,
};

const EVENTS: [EngineEvent; 6] = [
    EngineEvent::Start,
    EngineEvent::Initialized,
    EngineEvent::InitializationFailed,
    EngineEvent::StopRequested,
    EngineEvent::ChannelFailed,
    EngineEvent::Drained,
];

#[test]
fn live_engine_runs_through_its_life_cycle() {
    let mut engine = Engine::new(EngineMode { offline: false, backfill: true });
    assert_eq!(engine.state(), EngineState::Stopped);
    assert!(!engine.accepts_ticks());
    assert_eq!(
        engine.step(EngineEvent::Start),
        EngineAction::Initialize { connect_adapters: true, warm_up: true }
    );
    assert_eq!(engine.state(), EngineState::Initializing);
    assert!(!engine.accepts_ticks());
    assert_eq!(
        engine.step(EngineEvent::Initialized),
        EngineAction::Run { subscribe: true, drain: true }
    );
    assert_eq!(engine.state(), EngineState::Running);
    assert!(engine.accepts_ticks());
    assert_eq!(
        engine.step(EngineEvent::StopRequested),
        EngineAction::Shutdown { disconnect_adapters: true }
    );
    assert_eq!(engine.state(), EngineState::Stopping);
    assert!(!engine.accepts_ticks());
    assert_eq!(engine.step(EngineEvent::Drained), EngineAction::Finished);
    assert_eq!(engine.state(), EngineState::Stopped);
}

#[test]
fn live_engine_without_backfill_skips_warm_up() {
    let mut engine = Engine::new(EngineMode { offline: false, backfill: false });
    assert_eq!(
        engine.step(EngineEvent::Start),
        EngineAction::Initialize { connect_adapters: true, warm_up: false }
    );
}

#[test]
fn channel_failure_stops_a_running_engine() {
    let mut engine = Engine::new(EngineMode { offline: false, backfill: false });
    engine.step(EngineEvent::Start);
    engine.step(EngineEvent::Initialized);
    assert_eq!(
        engine.step(EngineEvent::ChannelFailed),
        EngineAction::Shutdown { disconnect_adapters: true }
    );
    assert_eq!(engine.state(), EngineState::Stopping);
}

#[test]
fn failed_initialization_shuts_down() {
    let mut engine = Engine::new(EngineMode { offline: false, backfill: true });
    engine.step(EngineEvent::Start);
    assert_eq!(
        engine.step(EngineEvent::InitializationFailed),
        EngineAction::Shutdown { disconnect_adapters: true }
    );
    assert_eq!(engine.state(), EngineState::Stopping);
    assert_eq!(engine.step(EngineEvent::Drained), EngineAction::Finished);
    assert_eq!(engine.state(), EngineState::Stopped);
}

#[test]
fn events_out_of_place_are_ignored() {
    let mut engine = Engine::new(EngineMode { offline: false, backfill: true });
    for event in [
        EngineEvent::Initialized,
        EngineEvent::InitializationFailed,
        EngineEvent::StopRequested,
        EngineEvent::ChannelFailed,
        EngineEvent::Drained,
    ] {
        assert_eq!(engine.step(event), EngineAction::Ignore);
        assert_eq!(engine.state(), EngineState::Stopped);
    }
    engine.step(EngineEvent::Start);
    engine.step(EngineEvent::Initialized);
    for event in [
        EngineEvent::Start,
        EngineEvent::Initialized,
        EngineEvent::InitializationFailed,
        EngineEvent::Drained,
    ] {
        assert_eq!(engine.step(event), EngineAction::Ignore);
        assert_eq!(engine.state(), EngineState::Running);
    }
}

#[test]
fn offline_engine_reports_running_and_stops_cleanly() {
    let mut engine = Engine::new(EngineMode { offline: true, backfill: true });
    assert_eq!(
        engine.step(EngineEvent::Start),
        EngineAction::Initialize { connect_adapters: false, warm_up: false }
    );
    assert_eq!(
        engine.step(EngineEvent::Initialized),
        EngineAction::Run { subscribe: false, drain: false }
    );
    assert_eq!(engine.state(), EngineState::Running);
    assert!(!engine.accepts_ticks());
    assert_eq!(
        engine.step(EngineEvent::StopRequested),
        EngineAction::Shutdown { disconnect_adapters: false }
    );
    assert_eq!(engine.step(EngineEvent::Drained), EngineAction::Finished);
    assert_eq!(engine.state(), EngineState::Stopped);
}

#[test]
fn offline_engine_never_touches_adapters_or_drains() {
    for backfill in [false, true] {
        for first in EVENTS {
            for second in EVENTS {
                for third in EVENTS {
                    for fourth in EVENTS {
                        let mut engine = Engine::new(EngineMode { offline: true, backfill });
                        for event in [first, second, third, fourth] {
                            match engine.step(event) {
                                EngineAction::Initialize { connect_adapters, warm_up } => {
                                    assert!(!connect_adapters && !warm_up)
                                }
                                EngineAction::Run { subscribe, drain } => {
                                    assert!(!subscribe && !drain)
                                }
                                EngineAction::Shutdown { disconnect_adapters } => {
                                    assert!(!disconnect_adapters)
                                }
                                EngineAction::Ignore | EngineAction::Finished => {}
                            }
                            assert!(!engine.accepts_ticks());
                        }
                    }
                }
            }
        }
    }
}

#[test]
fn settings_need_a_global_section_and_brokers() {
    assert_eq!(
        EngineConfig::from_settings(false, Some(true), Some("localhost:9092".to_string())).err(),
        Some(ConfigurationError::MissingGlobal)
    );
    assert_eq!(
        EngineConfig::from_settings(true, Some(true), None).err(),
        Some(ConfigurationError::MissingBrokers)
    );
    assert_eq!(
        EngineConfig::from_settings(false, None, None).err(),
        Some(ConfigurationError::MissingGlobal)
    );
}

#[test]
fn missing_offline_flag_means_live() {
    let config = EngineConfig::from_settings(true, None, Some("a:1,b:2".to_string())).unwrap();
    assert!(!config.offline_mode);
    assert_eq!(config.brokers, "a:1,b:2");
    assert_eq!(config.mode(true), EngineMode { offline: false, backfill: true });
    let config = EngineConfig::from_settings(true, Some(true), Some("a:1".to_string())).unwrap();
    assert!(config.offline_mode);
    assert_eq!(config.mode(false), EngineMode { offline: true, backfill: false });
}

#[test]
fn faults_are_disposed_of_by_kind() {
    assert_eq!(disposition(Fault::Configuration), Disposition::AbortStartup);
    assert_eq!(disposition(Fault::InvalidParameter), Disposition::AbortStartup);
    assert_eq!(disposition(Fault::Adapter), Disposition::SkipAdapter);
    assert_eq!(disposition(Fault::MalformedTick), Disposition::DropTick);
    assert_eq!(disposition(Fault::SinkWrite), Disposition::LogAndContinue);
    assert_eq!(disposition(Fault::ChannelClosed), Disposition::StopEngine);
    assert_eq!(disposition(Fault::LockPoisoned), Disposition::StopEngine);
}

#[test]
fn isolated_faults_do_not_move_the_engine() {
    let mut engine = Engine::new(EngineMode { offline: false, backfill: false });
    engine.step(EngineEvent::Start);
    assert_eq!(engine.report(Fault::Adapter), (Disposition::SkipAdapter, EngineAction::Ignore));
    assert_eq!(engine.state(), EngineState::Initializing);
    engine.step(EngineEvent::Initialized);
    assert_eq!(
        engine.report(Fault::MalformedTick),
        (Disposition::DropTick, EngineAction::Ignore)
    );
    assert_eq!(
        engine.report(Fault::SinkWrite),
        (Disposition::LogAndContinue, EngineAction::Ignore)
    );
    assert_eq!(engine.state(), EngineState::Running);
    assert!(engine.accepts_ticks());
}

#[test]
fn fatal_faults_stop_the_engine() {
    let mut engine = Engine::new(EngineMode { offline: false, backfill: false });
    engine.step(EngineEvent::Start);
    engine.step(EngineEvent::Initialized);
    assert_eq!(
        engine.report(Fault::LockPoisoned),
        (Disposition::StopEngine, EngineAction::Shutdown { disconnect_adapters: true })
    );
    assert_eq!(engine.state(), EngineState::Stopping);
    let mut engine = Engine::new(EngineMode { offline: false, backfill: false });
    engine.step(EngineEvent::Start);
    assert_eq!(
        engine.report(Fault::Configuration),
        (Disposition::AbortStartup, EngineAction::Shutdown { disconnect_adapters: true })
    );
    assert_eq!(engine.state(), EngineState::Stopping);
    let mut engine = Engine::new(EngineMode { offline: false, backfill: false });
    assert_eq!(
        engine.report(Fault::ChannelClosed),
        (Disposition::StopEngine, EngineAction::Ignore)
    );
    assert_eq!(engine.state(), EngineState::Stopped);
}
