use ground_station::ingest::StopReason;
use ground_station::session::{
    ConnectError, ConnectOptions, OpenRequest, SessionManager, SessionState,
    DEFAULT_BAUD_RATE, DEFAULT_TIMEOUT_MILLIS,
};
use ground_station::telemetry::{F64Bits, TelemetryPacket};

const NO_OPTIONS: ConnectOptions = ConnectOptions { timeout_millis: None, baud_rate: None };

fn sample(running_us: u64, offset: u16) -> TelemetryPacket {
    TelemetryPacket {
        running_us,
        tvc_x: F64Bits::from_bits(1),
        tvc_z: F64Bits::from_bits(2),
        angle: F64Bits::from_bits(3),
        temperature: F64Bits::from_bits(4),
        v_sys: F64Bits::from_bits(5),
        v_bat: F64Bits::from_bits(6),
        offset,
        v_bus_present: false,
    }
}

fn active() -> SessionManager {
    let mut manager = SessionManager::new();
    manager.connect("/dev/ttyACM0", NO_OPTIONS).unwrap();
    manager.opened(true).unwrap();
    manager
}

#[test]
fn a_new_manager_is_idle_and_empty() {
    let manager = SessionManager::new();
    assert_eq!(manager.state(), SessionState::Idle);
    assert!(!manager.fault());
    assert_eq!(manager.range_query(0, u64::MAX), vec![]);
}

#[test]
fn connect_names_what_to_open_with_the_defaults() {
    let mut manager = SessionManager::new();
    let request = manager.connect("/dev/ttyACM0", NO_OPTIONS);
    assert_eq!(
        request,
        Ok(OpenRequest {
            port_name: "/dev/ttyACM0".to_string(),
            timeout_millis: 1000,
            baud_rate: 0,
        })
    );
    assert_eq!(DEFAULT_TIMEOUT_MILLIS, 1000);
    assert_eq!(DEFAULT_BAUD_RATE, 0);
    assert_eq!(manager.state(), SessionState::Connecting);
}

#[test]
fn connect_hands_the_options_of_the_caller_on() {
    let mut manager = SessionManager::new();
    let options = ConnectOptions { timeout_millis: Some(250), baud_rate: Some(115_200) };
    assert_eq!(
        manager.connect("COM3", options),
        Ok(OpenRequest { port_name: "COM3".to_string(), timeout_millis: 250, baud_rate: 115_200 })
    );
}

#[test]
fn an_empty_device_name_is_refused_before_anything_is_touched() {
    let mut manager = SessionManager::new();
    assert_eq!(manager.connect("", NO_OPTIONS), Err(ConnectError::EmptyDeviceName));
    assert_eq!(manager.state(), SessionState::Idle);
}

#[test]
fn a_second_connect_is_refused_as_already_active() {
    let mut manager = SessionManager::new();
    assert!(manager.connect("/dev/ttyACM0", NO_OPTIONS).is_ok());
    assert_eq!(manager.connect("/dev/ttyACM0", NO_OPTIONS), Err(ConnectError::AlreadyActive));
    assert_eq!(manager.opened(true), Ok(()));
    assert_eq!(manager.connect("/dev/ttyACM1", NO_OPTIONS), Err(ConnectError::AlreadyActive));
    assert_eq!(manager.connect("", NO_OPTIONS), Err(ConnectError::AlreadyActive));
    manager.on_record(sample(1, 0));
    manager.subscribe();
    assert_eq!(manager.connect("/dev/ttyACM0", NO_OPTIONS), Err(ConnectError::AlreadyActive));
    assert_eq!(manager.state(), SessionState::Active);
    assert_eq!(manager.opened(true), Err(ConnectError::NotConnecting));
    assert_eq!(manager.state(), SessionState::Active);
}

#[test]
fn connect_is_refused_until_the_loop_is_seen_to_end() {
    let mut manager = active();
    assert!(manager.disconnect());
    assert_eq!(manager.state(), SessionState::Disconnecting);
    assert_eq!(manager.connect("/dev/ttyACM0", NO_OPTIONS), Err(ConnectError::AlreadyActive));
    assert_eq!(manager.ingest_stopped(StopReason::TransportFailed), SessionState::Disconnecting);
    assert_eq!(manager.state(), SessionState::Idle);
    assert!(manager.connect("/dev/ttyACM0", NO_OPTIONS).is_ok());
}

#[test]
fn a_transport_that_does_not_open_leaves_the_slot_idle() {
    let mut manager = SessionManager::new();
    manager.connect("/dev/ttyACM0", NO_OPTIONS).unwrap();
    assert_eq!(manager.opened(false), Err(ConnectError::PortUnavailable));
    assert_eq!(manager.state(), SessionState::Idle);
    assert!(!manager.fault());
    assert!(manager.connect("/dev/ttyACM0", NO_OPTIONS).is_ok());
}

#[test]
fn an_outcome_without_an_attempt_is_refused() {
    let mut manager = SessionManager::new();
    assert_eq!(manager.opened(true), Err(ConnectError::NotConnecting));
    assert_eq!(manager.opened(false), Err(ConnectError::NotConnecting));
    assert_eq!(manager.state(), SessionState::Idle);
}

#[test]
fn a_session_starts_with_an_empty_store() {
    let mut manager = active();
    manager.on_record(sample(10, 1));
    manager.on_record(sample(20, 2));
    assert_eq!(manager.range_query(0, 100).len(), 2);
    manager.ingest_stopped(StopReason::EndOfStream);
    assert_eq!(manager.range_query(0, 100).len(), 2);
    manager.connect("/dev/ttyACM0", NO_OPTIONS).unwrap();
    assert_eq!(manager.range_query(0, 100).len(), 2);
    manager.opened(true).unwrap();
    assert_eq!(manager.range_query(0, 100), vec![]);
}

#[test]
fn records_are_filed_and_fanned_out_in_order() {
    let mut manager = active();
    let first = manager.subscribe().unwrap();
    let second = manager.subscribe().unwrap();
    assert_eq!((first, second), (0, 1));
    let records = [sample(30, 1), sample(10, 2), sample(20, 3), sample(10, 4)];
    let mut seen_by_first = Vec::new();
    let mut seen_by_second = Vec::new();
    for record in records {
        for id in manager.on_record(record) {
            if id == first {
                seen_by_first.push(record);
            }
            if id == second {
                seen_by_second.push(record);
            }
        }
    }
    assert_eq!(seen_by_first, records);
    assert_eq!(seen_by_second, records);
    assert_eq!(manager.range_query(0, 100), vec![sample(10, 4), sample(20, 3), sample(30, 1)]);
}

#[test]
fn range_query_on_the_manager_gives_exactly_the_record_in_range() {
    let mut manager = active();
    for running_us in [10, 20, 30] {
        manager.on_record(sample(running_us, 0));
    }
    assert_eq!(manager.range_query(15, 30), vec![sample(20, 0)]);
}

#[test]
fn a_record_without_an_active_session_is_dropped() {
    let mut manager = SessionManager::new();
    manager.subscribe().unwrap();
    assert_eq!(manager.on_record(sample(1, 1)), vec![]);
    assert_eq!(manager.range_query(0, 100), vec![]);
    manager.connect("/dev/ttyACM0", NO_OPTIONS).unwrap();
    assert_eq!(manager.on_record(sample(1, 1)), vec![]);
    manager.opened(true).unwrap();
    assert_eq!(manager.on_record(sample(1, 1)), vec![0]);
    manager.disconnect();
    assert_eq!(manager.on_record(sample(2, 2)), vec![]);
    assert_eq!(manager.range_query(0, 100), vec![sample(1, 1)]);
}

#[test]
fn losing_one_subscriber_leaves_the_other_and_the_session_alone() {
    let mut manager = active();
    let first = manager.subscribe().unwrap();
    let second = manager.subscribe().unwrap();
    assert_eq!(manager.on_record(sample(1, 0)), vec![first, second]);
    assert!(manager.unsubscribe(first));
    assert_eq!(manager.state(), SessionState::Active);
    assert_eq!(manager.on_record(sample(2, 0)), vec![second]);
    assert_eq!(manager.on_record(sample(3, 0)), vec![second]);
    assert!(!manager.unsubscribe(first));
    assert_eq!(manager.range_query(0, 10).len(), 3);
    let third = manager.subscribe().unwrap();
    assert_eq!(third, 2);
    assert_eq!(manager.on_record(sample(4, 0)), vec![second, third]);
}

#[test]
fn unsubscribing_a_stranger_changes_nothing() {
    let mut manager = active();
    let first = manager.subscribe().unwrap();
    assert!(!manager.unsubscribe(77));
    assert_eq!(manager.on_record(sample(1, 0)), vec![first]);
}

#[test]
fn disconnect_asks_for_the_loop_to_stop_once() {
    let mut manager = active();
    assert!(manager.disconnect());
    assert_eq!(manager.state(), SessionState::Disconnecting);
    assert!(!manager.disconnect());
    assert_eq!(manager.state(), SessionState::Disconnecting);
    assert_eq!(manager.ingest_stopped(StopReason::ConsumerGone), SessionState::Disconnecting);
    assert_eq!(manager.state(), SessionState::Idle);
    assert!(!manager.fault());
}

#[test]
fn disconnecting_an_idle_slot_is_no_error() {
    let mut manager = SessionManager::new();
    assert!(!manager.disconnect());
    assert!(!manager.disconnect());
    assert_eq!(manager.state(), SessionState::Idle);
}

#[test]
fn disconnect_gives_up_an_attempt_to_connect() {
    let mut manager = SessionManager::new();
    manager.connect("/dev/ttyACM0", NO_OPTIONS).unwrap();
    assert!(!manager.disconnect());
    assert_eq!(manager.state(), SessionState::Idle);
    assert_eq!(manager.opened(true), Err(ConnectError::NotConnecting));
    assert_eq!(manager.state(), SessionState::Idle);
}

#[test]
fn a_clean_end_of_stream_leaves_the_slot_idle_without_a_fault() {
    let mut manager = active();
    assert_eq!(manager.ingest_stopped(StopReason::EndOfStream), SessionState::Disconnecting);
    assert_eq!(manager.state(), SessionState::Idle);
    assert!(!manager.fault());
}

#[test]
fn a_broken_pipe_leaves_the_slot_idle_with_the_fault_noted() {
    let mut manager = active();
    assert_eq!(manager.ingest_stopped(StopReason::TransportFailed), SessionState::Faulted);
    assert_eq!(manager.state(), SessionState::Idle);
    assert!(manager.fault());
}

#[test]
fn a_consumer_that_went_away_is_no_fault() {
    let mut manager = active();
    assert_eq!(manager.ingest_stopped(StopReason::ConsumerGone), SessionState::Disconnecting);
    assert_eq!(manager.state(), SessionState::Idle);
    assert!(!manager.fault());
}

#[test]
fn a_fault_is_forgotten_when_the_next_session_starts() {
    let mut manager = active();
    manager.ingest_stopped(StopReason::TransportFailed);
    assert!(manager.fault());
    manager.connect("/dev/ttyACM0", NO_OPTIONS).unwrap();
    assert!(manager.fault());
    manager.opened(true).unwrap();
    assert!(!manager.fault());
}

#[test]
fn the_end_of_a_loop_that_never_ran_changes_nothing() {
    let mut manager = SessionManager::new();
    assert_eq!(manager.ingest_stopped(StopReason::TransportFailed), SessionState::Idle);
    assert_eq!(manager.state(), SessionState::Idle);
    assert!(!manager.fault());
    manager.connect("/dev/ttyACM0", NO_OPTIONS).unwrap();
    assert_eq!(manager.ingest_stopped(StopReason::TransportFailed), SessionState::Connecting);
    assert_eq!(manager.state(), SessionState::Connecting);
}
